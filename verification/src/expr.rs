//! The boolean environment-activation language.
//!
//! An author writes a predicate such as `prod + (linux | darwin)` over the
//! set of active environment names instead of enumerating the names.
//! `+` is conjunction, `|` is disjunction, `~` negates the next atom,
//! `*` and `?` always hold, and parentheses group.  Whitespace and any
//! unrecognized character are dropped by the lexer.

use vstd::prelude::*;

use crate::Error;

verus! {

/// Mathematical form of a lexer token: a name carries the characters
/// that spell it.
pub enum SpecToken {
    And,
    Or,
    Not,
    Pal,
    Par,
    Wild,
    Name(Seq<char>),
}

/// A token of the expression language.
#[derive(Debug)]
pub enum Token {
    And,
    Or,
    Not,
    Pal,
    Par,
    Wild,
    Name(String),
}

impl View for Token {
    type V = SpecToken;

    open spec fn view(&self) -> SpecToken {
        match self {
            Token::And => SpecToken::And,
            Token::Or => SpecToken::Or,
            Token::Not => SpecToken::Not,
            Token::Pal => SpecToken::Pal,
            Token::Par => SpecToken::Par,
            Token::Wild => SpecToken::Wild,
            Token::Name(s) => SpecToken::Name(s@),
        }
    }
}

impl DeepView for Token {
    type V = SpecToken;

    open spec fn deep_view(&self) -> SpecToken {
        self.view()
    }
}

/// A character that may appear in a name: an ASCII letter, a digit,
/// an underscore or a hyphen.
pub open spec fn spec_is_name_char(c: char) -> bool {
    (97 <= c as u32 && c as u32 <= 122)  // 'a'..='z'
    || (65 <= c as u32 && c as u32 <= 90)  // 'A'..='Z'
    || (48 <= c as u32 && c as u32 <= 57)  // '0'..='9'
    || c as u32 == 95  // '_'
    || c as u32 == 45  // '-'
}

#[verifier::when_used_as_spec(spec_is_name_char)]
pub fn is_name_char(c: char) -> (r: bool)
    ensures
        r == spec_is_name_char(c),
{
    let u = c as u32;
    (97 <= u && u <= 122) || (65 <= u && u <= 90) || (48 <= u && u <= 57) || u == 95 || u == 45
}

/// The index just past the maximal run of name characters that starts at `i`.
pub open spec fn name_end(s: Seq<char>, i: int) -> int
    decreases s.len() - i,
{
    if 0 <= i < s.len() && spec_is_name_char(s[i]) {
        name_end(s, i + 1)
    } else {
        i
    }
}

pub proof fn lemma_name_end(s: Seq<char>, i: int)
    requires
        0 <= i <= s.len(),
    ensures
        i <= name_end(s, i) <= s.len(),
    decreases s.len() - i,
{
    if i < s.len() && spec_is_name_char(s[i]) {
        lemma_name_end(s, i + 1);
    }
}

/// The token stream of the text from position `i` on.  Whitespace and
/// unrecognized characters yield no token.
pub open spec fn spec_lex_at(s: Seq<char>, i: int) -> Seq<SpecToken>
    decreases s.len() - i,
{
    if 0 <= i < s.len() {
        let c = s[i];
        if spec_is_name_char(c) {
            let e = name_end(s, i + 1);
            let j = if i + 1 <= e <= s.len() { e } else { i + 1 };
            seq![SpecToken::Name(s.subrange(i, j))] + spec_lex_at(s, j)
        } else if c == '+' {
            seq![SpecToken::And] + spec_lex_at(s, i + 1)
        } else if c == '|' {
            seq![SpecToken::Or] + spec_lex_at(s, i + 1)
        } else if c == '*' || c == '?' {
            seq![SpecToken::Wild] + spec_lex_at(s, i + 1)
        } else if c == '~' {
            seq![SpecToken::Not] + spec_lex_at(s, i + 1)
        } else if c == '(' {
            seq![SpecToken::Pal] + spec_lex_at(s, i + 1)
        } else if c == ')' {
            seq![SpecToken::Par] + spec_lex_at(s, i + 1)
        } else {
            spec_lex_at(s, i + 1)
        }
    } else {
        Seq::empty()
    }
}

/// The token stream of a whole expression text.
pub open spec fn spec_lex(s: Seq<char>) -> Seq<SpecToken> {
    spec_lex_at(s, 0)
}

/// Split an expression text into tokens.
pub fn lex(expr: &str) -> (tokens: Vec<Token>)
    ensures
        tokens.deep_view() == spec_lex(expr@),
{
    let n = expr.unicode_len();
    let mut tokens: Vec<Token> = Vec::new();
    let mut i: usize = 0;
    proof {
        assert(tokens.deep_view() + spec_lex_at(expr@, 0) =~= spec_lex(expr@));
    }
    while i < n
        invariant
            0 <= i <= n,
            expr@.len() == n,
            spec_lex(expr@) == tokens.deep_view() + spec_lex_at(expr@, i as int),
        decreases n - i,
    {
        let ghost pre = tokens.deep_view();
        let c = expr.get_char(i);
        if is_name_char(c) {
            proof {
                lemma_name_end(expr@, i + 1);
            }
            let mut j: usize = i + 1;
            while j < n && is_name_char(expr.get_char(j))
                invariant
                    i + 1 <= j <= n,
                    expr@.len() == n,
                    name_end(expr@, i as int + 1) == name_end(expr@, j as int),
                decreases n - j,
            {
                j += 1;
            }
            assert(name_end(expr@, i as int + 1) == j as int);
            let name = expr.substring_char(i, j).to_owned();
            let ghost tv = SpecToken::Name(name@);
            tokens.push(Token::Name(name));
            proof {
                assert(tokens.deep_view() =~= pre + seq![tv]);
                assert((pre + seq![tv]) + spec_lex_at(expr@, j as int) =~= pre + (seq![tv]
                    + spec_lex_at(expr@, j as int)));
                assert(spec_lex_at(expr@, i as int) == seq![tv] + spec_lex_at(expr@, j as int));
            }
            i = j;
        } else {
            let u = c as u32;
            let tok: Option<Token> = if u == 43 {  // '+'
                Some(Token::And)
            } else if u == 124 {  // '|'
                Some(Token::Or)
            } else if u == 42 || u == 63 {  // '*' '?'
                Some(Token::Wild)
            } else if u == 126 {  // '~'
                Some(Token::Not)
            } else if u == 40 {  // '('
                Some(Token::Pal)
            } else if u == 41 {  // ')'
                Some(Token::Par)
            } else {
                None
            };
            match tok {
                Some(t) => {
                    let ghost tv = t@;
                    tokens.push(t);
                    proof {
                        assert(tokens.deep_view() =~= pre + seq![tv]);
                        assert((pre + seq![tv]) + spec_lex_at(expr@, i + 1) =~= pre + (seq![tv]
                            + spec_lex_at(expr@, i + 1)));
                        assert(spec_lex_at(expr@, i as int) == seq![tv] + spec_lex_at(
                            expr@,
                            i + 1,
                        ));
                    }
                },
                None => {
                    proof {
                        assert(spec_lex_at(expr@, i as int) == spec_lex_at(expr@, i + 1));
                    }
                },
            }
            i += 1;
        }
    }
    proof {
        assert(tokens.deep_view() + Seq::<SpecToken>::empty() =~= tokens.deep_view());
    }
    tokens
}

/// Mathematical form of a compiled expression: an atom carries the
/// characters of its name.
pub enum SpecExpr {
    And(Box<SpecExpr>, Box<SpecExpr>),
    Or(Box<SpecExpr>, Box<SpecExpr>),
    Not(Box<SpecExpr>),
    Group(Box<SpecExpr>),
    Atom(Seq<char>),
    Wild,
}

/// A compiled expression over environment names.
#[derive(Debug)]
pub enum Expr {
    And(Box<Expr>, Box<Expr>),
    Or(Box<Expr>, Box<Expr>),
    Not(Box<Expr>),
    Group(Box<Expr>),
    Atom(String),
    Wild,
}

pub open spec fn spec_expr_view(e: Expr) -> SpecExpr
    decreases e,
{
    match e {
        Expr::And(x, y) => SpecExpr::And(
            Box::new(spec_expr_view(*x)),
            Box::new(spec_expr_view(*y)),
        ),
        Expr::Or(x, y) => SpecExpr::Or(Box::new(spec_expr_view(*x)), Box::new(spec_expr_view(*y))),
        Expr::Not(x) => SpecExpr::Not(Box::new(spec_expr_view(*x))),
        Expr::Group(x) => SpecExpr::Group(Box::new(spec_expr_view(*x))),
        Expr::Atom(s) => SpecExpr::Atom(s@),
        Expr::Wild => SpecExpr::Wild,
    }
}

impl View for Expr {
    type V = SpecExpr;

    open spec fn view(&self) -> SpecExpr {
        spec_expr_view(*self)
    }
}

/// What an expression means: `+` is conjunction, `|` disjunction, `~`
/// negation, a group means its inside, an atom holds exactly when its
/// name is active, and the wildcard always holds.
pub open spec fn spec_eval(e: SpecExpr, names: Seq<Seq<char>>) -> bool
    decreases e,
{
    match e {
        SpecExpr::And(x, y) => spec_eval(*x, names) && spec_eval(*y, names),
        SpecExpr::Or(x, y) => spec_eval(*x, names) || spec_eval(*y, names),
        SpecExpr::Not(x) => !spec_eval(*x, names),
        SpecExpr::Group(x) => spec_eval(*x, names),
        SpecExpr::Atom(s) => names.contains(s),
        SpecExpr::Wild => true,
    }
}

/// Whether one of the strings in `v` spells `s`.
pub fn contains_string(v: &Vec<String>, s: &String) -> (r: bool)
    ensures
        r == v.deep_view().contains(s@),
{
    let mut k: usize = 0;
    while k < v.len()
        invariant
            0 <= k <= v.len(),
            forall|m: int| 0 <= m < k ==> v.deep_view()[m] != s@,
        decreases v.len() - k,
    {
        if s.eq(&v[k]) {
            assert(v.deep_view()[k as int] == s@);
            return true;
        }
        k += 1;
    }
    assert(forall|m: int| 0 <= m < v.deep_view().len() ==> v.deep_view()[m] != s@);
    false
}

impl Expr {
    /// Decide the expression against the active environment names.
    pub fn apply(&self, to: &Vec<String>) -> (r: bool)
        ensures
            r == spec_eval(self@, to.deep_view()),
        decreases *self,
    {
        match self {
            Expr::And(x, y) => x.apply(to) && y.apply(to),
            Expr::Or(x, y) => x.apply(to) || y.apply(to),
            Expr::Not(x) => !x.apply(to),
            Expr::Group(x) => x.apply(to),
            Expr::Atom(s) => contains_string(to, s),
            Expr::Wild => true,
        }
    }
}

/// The grammar, one level per function, each returning the parsed tree
/// and how many tokens it consumed:
///   or   := and ('|' or)?
///   and  := not ('+' and)?
///   not  := '~' atom | atom
///   atom := name | '*' | '(' or ')'
pub open spec fn spec_parse_atom(t: Seq<SpecToken>) -> Option<(SpecExpr, nat)>
    decreases t.len(), 0nat,
{
    if t.len() == 0 {
        None
    } else {
        match t[0] {
            SpecToken::Pal => match spec_parse_or(t.skip(1)) {
                Some((inner, n)) => {
                    if 1 + n < t.len() && t[1 + n as int] is Par {
                        Some((SpecExpr::Group(Box::new(inner)), (n + 2) as nat))
                    } else {
                        None
                    }
                },
                None => None,
            },
            SpecToken::Name(s) => Some((SpecExpr::Atom(s), 1nat)),
            SpecToken::Wild => Some((SpecExpr::Wild, 1nat)),
            _ => None,
        }
    }
}

pub open spec fn spec_parse_not(t: Seq<SpecToken>) -> Option<(SpecExpr, nat)>
    decreases t.len(), 1nat,
{
    if t.len() > 0 && t[0] is Not {
        match spec_parse_atom(t.skip(1)) {
            Some((inner, n)) => Some((SpecExpr::Not(Box::new(inner)), (n + 1) as nat)),
            None => None,
        }
    } else {
        spec_parse_atom(t)
    }
}

pub open spec fn spec_parse_and(t: Seq<SpecToken>) -> Option<(SpecExpr, nat)>
    decreases t.len(), 2nat,
{
    match spec_parse_not(t) {
        Some((lhs, n1)) => {
            if n1 < t.len() && t[n1 as int] is And {
                match spec_parse_and(t.skip(n1 as int + 1)) {
                    Some((rhs, n2)) => Some(
                        (SpecExpr::And(Box::new(lhs), Box::new(rhs)), (n1 + 1 + n2) as nat),
                    ),
                    None => None,
                }
            } else {
                Some((lhs, n1))
            }
        },
        None => None,
    }
}

pub open spec fn spec_parse_or(t: Seq<SpecToken>) -> Option<(SpecExpr, nat)>
    decreases t.len(), 3nat,
{
    match spec_parse_and(t) {
        Some((lhs, n1)) => {
            if n1 < t.len() && t[n1 as int] is Or {
                match spec_parse_or(t.skip(n1 as int + 1)) {
                    Some((rhs, n2)) => Some(
                        (SpecExpr::Or(Box::new(lhs), Box::new(rhs)), (n1 + 1 + n2) as nat),
                    ),
                    None => None,
                }
            } else {
                Some((lhs, n1))
            }
        },
        None => None,
    }
}

/// What `compile` returns: the tree of the token stream, provided the
/// whole stream is consumed, and nothing otherwise.
pub open spec fn spec_compile(s: Seq<char>) -> Option<SpecExpr> {
    let toks = spec_lex(s);
    match spec_parse_or(toks) {
        Some((e, n)) => if n == toks.len() {
            Some(e)
        } else {
            None
        },
        None => None,
    }
}

proof fn lemma_skip_skip(s: Seq<SpecToken>, a: int, b: int)
    requires
        0 <= a,
        0 <= b,
        a + b <= s.len(),
    ensures
        s.skip(a).skip(b) == s.skip(a + b),
{
    assert(s.skip(a).skip(b) =~= s.skip(a + b));
}

fn parse_atom(tokens: &Vec<Token>, i: usize) -> (r: Result<(Expr, usize), Error>)
    requires
        i <= tokens@.len(),
    ensures
        match r {
            Ok((e, j)) => i <= j <= tokens@.len() && spec_parse_atom(
                tokens.deep_view().skip(i as int),
            ) == Some((e@, (j - i) as nat)),
            Err(_) => spec_parse_atom(tokens.deep_view().skip(i as int)) is None,
        },
    decreases tokens@.len() - i, 0int,
{
    let ghost tv = tokens.deep_view().skip(i as int);
    if i == tokens.len() {
        return Err(Error::Parse);
    }
    assert(tv[0] == tokens.deep_view()[i as int]);
    match &tokens[i] {
        Token::Pal => {
            proof {
                lemma_skip_skip(tokens.deep_view(), i as int, 1);
            }
            let (inner, j) = parse_or(tokens, i + 1)?;
            let ghost n = (j - (i + 1)) as nat;
            assert(spec_parse_or(tv.skip(1)) == Some((inner@, n)));
            if j < tokens.len() {
                assert(tv[1 + n as int] == tokens.deep_view()[j as int]);
                match &tokens[j] {
                    Token::Par => Ok((Expr::Group(Box::new(inner)), j + 1)),
                    _ => Err(Error::Parse),
                }
            } else {
                Err(Error::Parse)
            }
        },
        Token::Name(x) => Ok((Expr::Atom(x.clone()), i + 1)),
        Token::Wild => Ok((Expr::Wild, i + 1)),
        _ => Err(Error::Parse),
    }
}

fn parse_not(tokens: &Vec<Token>, i: usize) -> (r: Result<(Expr, usize), Error>)
    requires
        i <= tokens@.len(),
    ensures
        match r {
            Ok((e, j)) => i <= j <= tokens@.len() && spec_parse_not(
                tokens.deep_view().skip(i as int),
            ) == Some((e@, (j - i) as nat)),
            Err(_) => spec_parse_not(tokens.deep_view().skip(i as int)) is None,
        },
    decreases tokens@.len() - i, 1int,
{
    let ghost tv = tokens.deep_view().skip(i as int);
    if i < tokens.len() && matches!(&tokens[i], Token::Not) {
        assert(tv[0] == tokens.deep_view()[i as int]);
        proof {
            lemma_skip_skip(tokens.deep_view(), i as int, 1);
        }
        let (inner, j) = parse_atom(tokens, i + 1)?;
        Ok((Expr::Not(Box::new(inner)), j))
    } else {
        assert(!(tv.len() > 0 && tv[0] is Not));
        parse_atom(tokens, i)
    }
}

fn parse_and(tokens: &Vec<Token>, i: usize) -> (r: Result<(Expr, usize), Error>)
    requires
        i <= tokens@.len(),
    ensures
        match r {
            Ok((e, j)) => i <= j <= tokens@.len() && spec_parse_and(
                tokens.deep_view().skip(i as int),
            ) == Some((e@, (j - i) as nat)),
            Err(_) => spec_parse_and(tokens.deep_view().skip(i as int)) is None,
        },
    decreases tokens@.len() - i, 2int,
{
    let ghost tv = tokens.deep_view().skip(i as int);
    let (lhs, j) = parse_not(tokens, i)?;
    let ghost n1 = (j - i) as nat;
    if j < tokens.len() && matches!(&tokens[j], Token::And) {
        assert(tv[n1 as int] == tokens.deep_view()[j as int]);
        proof {
            lemma_skip_skip(tokens.deep_view(), i as int, n1 as int + 1);
        }
        let (rhs, k) = parse_and(tokens, j + 1)?;
        Ok((Expr::And(Box::new(lhs), Box::new(rhs)), k))
    } else {
        assert(!(n1 < tv.len() && tv[n1 as int] is And));
        Ok((lhs, j))
    }
}

fn parse_or(tokens: &Vec<Token>, i: usize) -> (r: Result<(Expr, usize), Error>)
    requires
        i <= tokens@.len(),
    ensures
        match r {
            Ok((e, j)) => i <= j <= tokens@.len() && spec_parse_or(
                tokens.deep_view().skip(i as int),
            ) == Some((e@, (j - i) as nat)),
            Err(_) => spec_parse_or(tokens.deep_view().skip(i as int)) is None,
        },
    decreases tokens@.len() - i, 3int,
{
    let ghost tv = tokens.deep_view().skip(i as int);
    let (lhs, j) = parse_and(tokens, i)?;
    let ghost n1 = (j - i) as nat;
    if j < tokens.len() && matches!(&tokens[j], Token::Or) {
        assert(tv[n1 as int] == tokens.deep_view()[j as int]);
        proof {
            lemma_skip_skip(tokens.deep_view(), i as int, n1 as int + 1);
        }
        let (rhs, k) = parse_or(tokens, j + 1)?;
        Ok((Expr::Or(Box::new(lhs), Box::new(rhs)), k))
    } else {
        assert(!(n1 < tv.len() && tv[n1 as int] is Or));
        Ok((lhs, j))
    }
}

/// Compile an expression text, or report that it is malformed: the
/// stream ends before a complete atom, an open parenthesis is never
/// closed, or tokens remain after a complete expression.
pub fn compile(expr: &str) -> (r: Result<Expr, Error>)
    ensures
        match r {
            Ok(e) => spec_compile(expr@) == Some(e@),
            Err(_) => spec_compile(expr@) is None,
        },
{
    let tokens = lex(expr);
    proof {
        assert(tokens.deep_view().skip(0) =~= tokens.deep_view());
    }
    let (e, j) = parse_or(&tokens, 0)?;
    if j == tokens.len() {
        Ok(e)
    } else {
        Err(Error::Parse)
    }
}

} // verus!

