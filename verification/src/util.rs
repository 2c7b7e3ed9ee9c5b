//! Small verified helpers: a deterministic content hash rendered in
//! decimal, and character scanning over strings.

use vstd::prelude::*;

verus! {

/// One decimal digit as a character.
pub open spec fn digit_char(d: int) -> char {
    if d == 0 {
        '0'
    } else if d == 1 {
        '1'
    } else if d == 2 {
        '2'
    } else if d == 3 {
        '3'
    } else if d == 4 {
        '4'
    } else if d == 5 {
        '5'
    } else if d == 6 {
        '6'
    } else if d == 7 {
        '7'
    } else if d == 8 {
        '8'
    } else {
        '9'
    }
}

/// The decimal spelling of a number.
pub open spec fn spec_dec(n: int) -> Seq<char>
    decreases n,
{
    if n < 10 {
        seq![digit_char(n)]
    } else {
        spec_dec(n / 10).push(digit_char(n % 10))
    }
}

/// One decimal digit as a string slice.
fn digit_str(d: u64) -> (r: &'static str)
    requires
        d < 10,
    ensures
        r@ == seq![digit_char(d as int)],
{
    proof {
        reveal_strlit("0");
        reveal_strlit("1");
        reveal_strlit("2");
        reveal_strlit("3");
        reveal_strlit("4");
        reveal_strlit("5");
        reveal_strlit("6");
        reveal_strlit("7");
        reveal_strlit("8");
        reveal_strlit("9");
    }
    if d == 0 {
        "0"
    } else if d == 1 {
        "1"
    } else if d == 2 {
        "2"
    } else if d == 3 {
        "3"
    } else if d == 4 {
        "4"
    } else if d == 5 {
        "5"
    } else if d == 6 {
        "6"
    } else if d == 7 {
        "7"
    } else if d == 8 {
        "8"
    } else {
        "9"
    }
}

fn push_dec(n: u64, out: &mut String)
    ensures
        final(out)@ == old(out)@ + spec_dec(n as int),
    decreases n,
{
    if n >= 10 {
        push_dec(n / 10, out);
    }
    out.append(digit_str(n % 10));
    proof {
        if n < 10 {
            assert(old(out)@ + seq![digit_char(n as int)] =~= final(out)@);
        }
    }
}

/// The decimal spelling of a number, as a string.
pub fn dec_of(n: u64) -> (r: String)
    ensures
        r@ == spec_dec(n as int),
{
    let mut out = String::new();
    push_dec(n, &mut out);
    proof {
        assert(Seq::<char>::empty() + spec_dec(n as int) =~= spec_dec(n as int));
    }
    out
}

/// One step of the hash: fold one character in, then mix by a fixed
/// odd multiplier, keeping the low 64 bits.
pub open spec fn hash_step(h: u64, c: char) -> u64 {
    (((h ^ (c as u64)) as nat * 0x100000001b3 as nat) % 0x1_0000_0000_0000_0000 as nat) as u64
}

/// The hash of the characters from `s`, folded onto `h` left to right.
pub open spec fn spec_hash(s: Seq<char>, h: u64) -> u64
    decreases s.len(),
{
    if s.len() == 0 {
        h
    } else {
        spec_hash(s.skip(1), hash_step(h, s[0]))
    }
}

/// The seed the hash starts from.
pub open spec fn hash_seed() -> u64 {
    0xcbf29ce484222325
}

pub fn fold_hash(s: &str, h0: u64) -> (h: u64)
    ensures
        h == spec_hash(s@, h0),
{
    let ghost full = s@;
    let n = s.unicode_len();
    let mut h = h0;
    let mut i: usize = 0;
    proof {
        assert(full.skip(0) =~= full);
    }
    while i < n
        invariant
            0 <= i <= n,
            s@.len() == n,
            full == s@,
            spec_hash(full.skip(i as int), h) == spec_hash(full, h0),
        decreases n - i,
    {
        proof {
            assert(full.skip(i as int)[0] == full[i as int]);
            assert(full.skip(i as int).skip(1) =~= full.skip(i as int + 1));
        }
        let c = s.get_char(i);
        h = (h ^ (c as u64)).wrapping_mul(0x100000001b3);
        i += 1;
    }
    proof {
        assert(full.skip(i as int).len() == 0);
    }
    h
}

/// The identity of a remote: the hash of its url and ref, separated by
/// a character that a url cannot contain, spelled in decimal.
pub open spec fn spec_hash_url_ref(url: Seq<char>, ref_: Seq<char>) -> Seq<char> {
    spec_dec(spec_hash(ref_, spec_hash(seq!['\n'], spec_hash(url, hash_seed()))) as int)
}

/// A deterministic digest of a (url, ref) pair: equal pairs always give
/// equal digests.
pub fn hash_url_ref(url: &str, ref_: &str) -> (r: String)
    ensures
        r@ == spec_hash_url_ref(url@, ref_@),
{
    let h = fold_hash(url, 0xcbf29ce484222325);
    let h = fold_hash("\n", h);
    let h = fold_hash(ref_, h);
    proof {
        reveal_strlit("\n");
        assert("\n"@ =~= seq!['\n']);
    }
    dec_of(h)
}

/// What joining a relative segment onto a base directory yields: an
/// absolute segment replaces the base.
pub open spec fn spec_join(base: Seq<char>, rel: Seq<char>) -> Seq<char> {
    if rel.len() > 0 && rel[0] == '/' {
        rel
    } else {
        base + "/"@ + rel
    }
}

/// Join a path segment onto a base directory.
pub fn join_path(base: &str, rel: &str) -> (r: String)
    ensures
        r@ == spec_join(base@, rel@),
{
    if rel.unicode_len() > 0 && rel.get_char(0) == '/' {
        rel.to_owned()
    } else {
        base.to_owned().concat("/").concat(rel)
    }
}

/// A copy of a list of strings.
pub fn clone_strings(v: &Vec<String>) -> (r: Vec<String>)
    ensures
        r.deep_view() == v.deep_view(),
{
    let mut out: Vec<String> = Vec::new();
    let mut i: usize = 0;
    while i < v.len()
        invariant
            0 <= i <= v@.len(),
            v.deep_view().len() == v@.len(),
            out.deep_view() =~= v.deep_view().take(i as int),
        decreases v@.len() - i,
    {
        let ghost pre = out.deep_view();
        out.push(v[i].clone());
        proof {
            assert(out.deep_view() =~= pre.push(v.deep_view()[i as int]));
            assert(out.deep_view() =~= v.deep_view().take(i as int + 1));
        }
        i += 1;
    }
    proof {
        assert(v.deep_view().take(i as int) =~= v.deep_view());
    }
    out
}

/// The position of the first occurrence of `c`, or a negative number
/// when there is none.
pub open spec fn first_idx(s: Seq<char>, c: char) -> int
    decreases s.len(),
{
    if s.len() == 0 {
        -1
    } else if s[0] == c {
        0
    } else {
        let r = first_idx(s.skip(1), c);
        if r < 0 {
            -1
        } else {
            r + 1
        }
    }
}

/// Find the first occurrence of `c` in `s`.
pub fn find_char(s: &str, c: char) -> (r: Option<usize>)
    ensures
        match r {
            Some(i) => first_idx(s@, c) == i as int && i < s@.len(),
            None => first_idx(s@, c) < 0,
        },
{
    let ghost full = s@;
    let n = s.unicode_len();
    let mut i: usize = 0;
    proof {
        assert(full.skip(0) =~= full);
    }
    while i < n
        invariant
            0 <= i <= n,
            s@.len() == n,
            full == s@,
            first_idx(full, c) == if first_idx(full.skip(i as int), c) < 0 {
                first_idx(full.skip(i as int), c)
            } else {
                first_idx(full.skip(i as int), c) + i
            },
        decreases n - i,
    {
        proof {
            assert(full.skip(i as int)[0] == full[i as int]);
            assert(full.skip(i as int).skip(1) =~= full.skip(i as int + 1));
        }
        if s.get_char(i) == c {
            return Some(i);
        }
        i += 1;
    }
    proof {
        assert(full.skip(i as int).len() == 0);
    }
    None
}

/// When `c` does not occur, there is no first occurrence.
pub proof fn lemma_first_idx_none(s: Seq<char>, c: char)
    requires
        forall|i: int| 0 <= i < s.len() ==> s[i] != c,
    ensures
        first_idx(s, c) < 0,
    decreases s.len(),
{
    if s.len() > 0 {
        assert forall|i: int| 0 <= i < s.skip(1).len() implies s.skip(1)[i] != c by {
            assert(s.skip(1)[i] == s[i + 1]);
        }
        lemma_first_idx_none(s.skip(1), c);
    }
}

/// When `a` is free of `c`, the first occurrence of `c` in `a + <c> + b`
/// is exactly where `a` ends.
pub proof fn lemma_first_idx_concat(a: Seq<char>, b: Seq<char>, c: char)
    requires
        forall|i: int| 0 <= i < a.len() ==> a[i] != c,
    ensures
        first_idx(a + seq![c] + b, c) == a.len(),
    decreases a.len(),
{
    let s = a + seq![c] + b;
    if a.len() == 0 {
        assert(s[0] == c);
    } else {
        assert(s[0] == a[0]);
        assert forall|i: int| 0 <= i < a.skip(1).len() implies a.skip(1)[i] != c by {
            assert(a.skip(1)[i] == a[i + 1]);
        }
        lemma_first_idx_concat(a.skip(1), b, c);
        assert(s.skip(1) =~= a.skip(1) + seq![c] + b);
    }
}

/// How many consecutive occurrences of `c` open the sequence.
pub open spec fn run_len(s: Seq<char>, c: char) -> int
    decreases s.len(),
{
    if s.len() > 0 && s[0] == c {
        1 + run_len(s.skip(1), c)
    } else {
        0
    }
}

/// The position just past the run of `c` characters that starts at
/// `from`.
pub fn run_end(s: &str, from: usize, c: char) -> (j: usize)
    requires
        from <= s@.len(),
    ensures
        from <= j <= s@.len(),
        j == from + run_len(s@.skip(from as int), c),
{
    let ghost full = s@;
    let n = s.unicode_len();
    let mut j: usize = from;
    while j < n && s.get_char(j) == c
        invariant
            from <= j <= n,
            s@.len() == n,
            full == s@,
            run_len(full.skip(from as int), c) == (j - from) + run_len(full.skip(j as int), c),
        decreases n - j,
    {
        proof {
            assert(full.skip(j as int)[0] == full[j as int]);
            assert(full.skip(j as int).skip(1) =~= full.skip(j as int + 1));
        }
        j += 1;
    }
    proof {
        if j < n {
            assert(full.skip(j as int)[0] == full[j as int]);
        }
        assert(run_len(full.skip(j as int), c) == 0);
    }
    j
}

} // verus!
