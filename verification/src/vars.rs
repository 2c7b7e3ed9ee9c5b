//! Ordered variable maps and layered variable resolution.
//!
//! A `VarMap` is an ordered string-to-string map with unique keys; later
//! writes overwrite in place during overlay merges.  `env_vars` layers the
//! conditional overlays of an entity onto its own map, and `expand`
//! interpolates `$NAME` and `${NAME}` references against a map, an
//! explicit environment provider, and an empty-string fallback.

use vstd::prelude::*;

use crate::expr;
use crate::Error;

verus! {

/// Whether no key appears twice.
pub open spec fn distinct_keys<V>(s: Seq<(Seq<char>, V)>) -> bool {
    forall|i: int, j: int| 0 <= i < j < s.len() ==> s[i].0 != s[j].0
}

/// Whether `k` is among the keys.
pub open spec fn has_key<V>(s: Seq<(Seq<char>, V)>, k: Seq<char>) -> bool
    decreases s.len(),
{
    s.len() > 0 && (s[0].0 == k || has_key(s.skip(1), k))
}

/// The value of the first entry for `k`, or the empty string when there
/// is none.
pub open spec fn lookup(s: Seq<(Seq<char>, Seq<char>)>, k: Seq<char>) -> Seq<char>
    decreases s.len(),
{
    if s.len() == 0 {
        Seq::empty()
    } else if s[0].0 == k {
        s[0].1
    } else {
        lookup(s.skip(1), k)
    }
}

/// The entries after one write: an existing entry for `k` is overwritten
/// in place, a fresh key is appended.
pub open spec fn spec_insert(
    s: Seq<(Seq<char>, Seq<char>)>,
    k: Seq<char>,
    v: Seq<char>,
) -> Seq<(Seq<char>, Seq<char>)> {
    if has_key(s, k) {
        Seq::new(s.len(), |i: int| if s[i].0 == k { (k, v) } else { s[i] })
    } else {
        s.push((k, v))
    }
}

/// The entries after overlaying every entry of `over`, in order.
pub open spec fn spec_overlay(
    base: Seq<(Seq<char>, Seq<char>)>,
    over: Seq<(Seq<char>, Seq<char>)>,
) -> Seq<(Seq<char>, Seq<char>)>
    decreases over.len(),
{
    if over.len() == 0 {
        base
    } else {
        spec_overlay(spec_insert(base, over[0].0, over[0].1), over.skip(1))
    }
}

/// The entries after adopting every entry of `other` whose key is still
/// free: the present entries win.
pub open spec fn spec_adopt<V>(
    base: Seq<(Seq<char>, V)>,
    over: Seq<(Seq<char>, V)>,
) -> Seq<(Seq<char>, V)>
    decreases over.len(),
{
    if over.len() == 0 {
        base
    } else {
        let step = if has_key(base, over[0].0) {
            base
        } else {
            base.push(over[0])
        };
        spec_adopt(step, over.skip(1))
    }
}

/// The layered variables of one entity, as `env_vars` computes them:
/// the entity's own entries, then each conditional overlay whose test
/// compiles and holds of the active names, in declaration order.
pub open spec fn spec_env_vars(
    base: Seq<(Seq<char>, Seq<char>)>,
    cond: Seq<(Seq<char>, Seq<(Seq<char>, Seq<char>)>)>,
    names: Seq<Seq<char>>,
) -> Seq<(Seq<char>, Seq<char>)>
    decreases cond.len(),
{
    if cond.len() == 0 {
        base
    } else {
        let step = match expr::spec_compile(cond[0].0) {
            Some(e) => if expr::spec_eval(e, names) {
                spec_overlay(base, cond[0].1)
            } else {
                base
            },
            None => base,
        };
        spec_env_vars(step, cond.skip(1), names)
    }
}

/// A key with no entry looks up to the empty string.
pub proof fn lemma_lookup_absent(s: Seq<(Seq<char>, Seq<char>)>, k: Seq<char>)
    requires
        !has_key(s, k),
    ensures
        lookup(s, k) == Seq::<char>::empty(),
    decreases s.len(),
{
    if s.len() > 0 {
        lemma_lookup_absent(s.skip(1), k);
    }
}

pub proof fn lemma_has_key_index<V>(s: Seq<(Seq<char>, V)>, k: Seq<char>)
    ensures
        has_key(s, k) <==> exists|i: int| 0 <= i < s.len() && s[i].0 == k,
    decreases s.len(),
{
    if s.len() > 0 {
        lemma_has_key_index(s.skip(1), k);
        if s[0].0 == k {
            assert(s[0].0 == k && 0 <= 0 < s.len());
        } else if has_key(s.skip(1), k) {
            let i = choose|i: int| 0 <= i < s.skip(1).len() && s.skip(1)[i].0 == k;
            assert(s[i + 1].0 == k);
        } else if exists|i: int| 0 <= i < s.len() && s[i].0 == k {
            let i = choose|i: int| 0 <= i < s.len() && s[i].0 == k;
            assert(s.skip(1)[i - 1].0 == k);
        }
    }
}

/// An ordered map from names to values, unique keys, insertion order kept.
#[derive(Debug)]
pub struct VarMap {
    entries: Vec<(String, String)>,
}

impl View for VarMap {
    type V = Seq<(Seq<char>, Seq<char>)>;

    closed spec fn view(&self) -> Seq<(Seq<char>, Seq<char>)> {
        self.entries.deep_view()
    }
}

impl DeepView for VarMap {
    type V = Seq<(Seq<char>, Seq<char>)>;

    open spec fn deep_view(&self) -> Seq<(Seq<char>, Seq<char>)> {
        self.view()
    }
}

impl VarMap {
    /// Every key appears at most once.
    pub open spec fn wf(self) -> bool {
        distinct_keys(self@)
    }

    pub fn new() -> (m: VarMap)
        ensures
            m@ == Seq::<(Seq<char>, Seq<char>)>::empty(),
            m.wf(),
    {
        let m = VarMap { entries: Vec::new() };
        proof {
            assert(m@ =~= Seq::<(Seq<char>, Seq<char>)>::empty());
        }
        m
    }

    pub fn len(&self) -> (n: usize)
        ensures
            n == self@.len(),
    {
        self.entries.len()
    }

    pub fn key_at(&self, i: usize) -> (k: &String)
        requires
            i < self@.len(),
        ensures
            k@ == self@[i as int].0,
    {
        &self.entries[i].0
    }

    pub fn val_at(&self, i: usize) -> (v: &String)
        requires
            i < self@.len(),
        ensures
            v@ == self@[i as int].1,
    {
        &self.entries[i].1
    }

    /// The position of `k` among the entries, if it is there.
    fn find(&self, k: &str) -> (r: Option<usize>)
        ensures
            match r {
                Some(i) => i < self@.len() && self@[i as int].0 == k@ && has_key(self@, k@)
                    && lookup(self@, k@) == self@[i as int].1 && (forall|m: int|
                    0 <= m < i ==> self@[m].0 != k@),
                None => !has_key(self@, k@),
            },
    {
        let ghost full = self@;
        let kk = k.to_owned();
        let mut i: usize = 0;
        proof {
            assert(full.skip(0) =~= full);
        }
        while i < self.entries.len()
            invariant
                0 <= i <= self.entries.len(),
                kk@ == k@,
                full == self@,
                self@.len() == self.entries@.len(),
                forall|m: int| 0 <= m < i ==> self@[m].0 != k@,
                has_key(full, k@) == has_key(full.skip(i as int), k@),
                lookup(full, k@) == lookup(full.skip(i as int), k@),
            decreases self.entries.len() - i,
        {
            proof {
                assert(full.skip(i as int)[0] == full[i as int]);
                assert(full.skip(i as int).skip(1) =~= full.skip(i as int + 1));
            }
            assert(self@[i as int].0 == self.entries@[i as int].0@);
            let ks: &String = &self.entries[i].0;
            if ks.eq(&kk) {
                assert(self@[i as int].0 == k@);
                return Some(i);
            }
            assert(self@[i as int].0 != k@);
            i += 1;
        }
        proof {
            assert(full.skip(i as int).len() == 0);
        }
        None
    }

    /// The value for `k`, when `k` has an entry.
    pub fn get(&self, k: &str) -> (r: Option<&String>)
        ensures
            match r {
                Some(v) => has_key(self@, k@) && v@ == lookup(self@, k@),
                None => !has_key(self@, k@),
            },
    {
        match self.find(k) {
            Some(i) => Some(&self.entries[i].1),
            None => None,
        }
    }

    /// Write one entry: overwrite in place when the key is present,
    /// append when it is fresh.
    pub fn insert(&mut self, k: String, v: String)
        requires
            old(self).wf(),
        ensures
            final(self).wf(),
            final(self)@ == spec_insert(old(self)@, k@, v@),
    {
        let ghost pre = self@;
        match self.find(k.as_str()) {
            Some(i) => {
                self.entries[i] = (k, v);
                proof {
                    assert(final(self)@ =~= spec_insert(pre, k@, v@));
                    assert forall|a: int, b: int|
                        0 <= a < b < self@.len() implies self@[a].0 != self@[b].0 by {
                        assert(pre[a].0 != pre[b].0);
                    }
                }
            },
            None => {
                let ghost kv = k@;
                let ghost vv = v@;
                self.entries.push((k, v));
                proof {
                    assert(self@ =~= pre.push((kv, vv)));
                    lemma_has_key_index(pre, kv);
                    assert forall|a: int, b: int|
                        0 <= a < b < self@.len() implies self@[a].0 != self@[b].0 by {
                        if b < pre.len() {
                            assert(pre[a].0 != pre[b].0);
                        } else {
                            assert(self@[b].0 == kv);
                            assert(self@[a] == pre[a]);
                        }
                    }
                }
            },
        }
    }

    /// Write one entry only when the key is still free: what is present
    /// wins.
    pub fn insert_absent(&mut self, k: String, v: String)
        requires
            old(self).wf(),
        ensures
            final(self).wf(),
            final(self)@ == if has_key(old(self)@, k@) {
                old(self)@
            } else {
                old(self)@.push((k@, v@))
            },
    {
        let ghost pre = self@;
        match self.find(k.as_str()) {
            Some(_) => {},
            None => {
                let ghost kv = k@;
                let ghost vv = v@;
                self.entries.push((k, v));
                proof {
                    assert(self@ =~= pre.push((kv, vv)));
                    lemma_has_key_index(pre, kv);
                    assert forall|a: int, b: int|
                        0 <= a < b < self@.len() implies self@[a].0 != self@[b].0 by {
                        if b < pre.len() {
                            assert(pre[a].0 != pre[b].0);
                        } else {
                            assert(self@[b].0 == kv);
                            assert(self@[a] == pre[a]);
                        }
                    }
                }
            },
        }
    }

    /// A copy with the same entries.
    pub fn duplicate(&self) -> (r: VarMap)
        ensures
            r@ == self@,
    {
        let mut out: Vec<(String, String)> = Vec::new();
        let mut i: usize = 0;
        while i < self.entries.len()
            invariant
                0 <= i <= self.entries.len(),
                out.deep_view() =~= self@.take(i as int),
            decreases self.entries.len() - i,
        {
            let ghost pre = out.deep_view();
            out.push((self.entries[i].0.clone(), self.entries[i].1.clone()));
            proof {
                assert(out.deep_view() =~= pre.push(self@[i as int]));
                assert(out.deep_view() =~= self@.take(i as int + 1));
            }
            i += 1;
        }
        let r = VarMap { entries: out };
        proof {
            assert(r@ =~= self@);
        }
        r
    }

    /// Overlay every entry of `other` onto this map, in order: later
    /// writes overwrite.
    pub fn extend_overlay(&mut self, other: &VarMap)
        requires
            old(self).wf(),
        ensures
            final(self).wf(),
            final(self)@ == spec_overlay(old(self)@, other@),
    {
        let ghost base = self@;
        let ghost over = other@;
        let mut i: usize = 0;
        proof {
            assert(over.skip(0) =~= over);
        }
        while i < other.len()
            invariant
                0 <= i <= over.len(),
                other@ == over,
                self.wf(),
                spec_overlay(self@, over.skip(i as int)) == spec_overlay(base, over),
            decreases over.len() - i,
        {
            proof {
                assert(over.skip(i as int)[0] == over[i as int]);
                assert(over.skip(i as int).skip(1) =~= over.skip(i as int + 1));
            }
            self.insert(other.key_at(i).clone(), other.val_at(i).clone());
            i += 1;
        }
        proof {
            assert(over.skip(i as int).len() == 0);
        }
    }

    /// The layered variables of one entity: its own map, with each
    /// conditional overlay applied in declaration order when its test
    /// expression holds of the active names.  A malformed test is
    /// treated as not satisfied.
    pub fn env_vars(&self, cond: &Vec<(String, VarMap)>, names: &Vec<String>) -> (r: VarMap)
        requires
            self.wf(),
        ensures
            r.wf(),
            r@ == spec_env_vars(self@, cond.deep_view(), names.deep_view()),
    {
        let ghost cv = cond.deep_view();
        let ghost nv = names.deep_view();
        let mut result = self.duplicate();
        let mut i: usize = 0;
        proof {
            assert(cv.skip(0) =~= cv);
        }
        while i < cond.len()
            invariant
                0 <= i <= cond@.len(),
                cond.deep_view() == cv,
                names.deep_view() == nv,
                result.wf(),
                spec_env_vars(result@, cv.skip(i as int), nv) == spec_env_vars(self@, cv, nv),
            decreases cond@.len() - i,
        {
            proof {
                assert(cv.skip(i as int)[0] == cv[i as int]);
                assert(cv.skip(i as int).skip(1) =~= cv.skip(i as int + 1));
                assert(cv[i as int] == (cond@[i as int].0@, cond@[i as int].1.deep_view()));
            }
            let pair: &(String, VarMap) = &cond[i];
            match expr::compile(pair.0.as_str()) {
                Ok(e) => {
                    if e.apply(names) {
                        result.extend_overlay(&pair.1);
                    }
                },
                Err(_) => {},
            }
            i += 1;
        }
        proof {
            assert(cv.skip(i as int).len() == 0);
        }
        result
    }

    /// Adopt every entry of `other` whose key is still free: what is
    /// present wins.
    pub fn extend_absent(&mut self, other: &VarMap)
        requires
            old(self).wf(),
        ensures
            final(self).wf(),
            final(self)@ == spec_adopt(old(self)@, other@),
    {
        let ghost base = self@;
        let ghost over = other@;
        let mut i: usize = 0;
        proof {
            assert(over.skip(0) =~= over);
        }
        while i < other.len()
            invariant
                0 <= i <= over.len(),
                other@ == over,
                self.wf(),
                spec_adopt(self@, over.skip(i as int)) == spec_adopt(base, over),
            decreases over.len() - i,
        {
            proof {
                assert(over.skip(i as int)[0] == over[i as int]);
                assert(over.skip(i as int).skip(1) =~= over.skip(i as int + 1));
            }
            self.insert_absent(other.key_at(i).clone(), other.val_at(i).clone());
            i += 1;
        }
        proof {
            assert(over.skip(i as int).len() == 0);
        }
    }
}

/// What interpolation makes of a text under a total lookup from names
/// to values.
pub uninterp spec fn expand_of(raw: Seq<char>, ctx: Map<Seq<char>, Seq<char>>) -> Seq<char>;

/// The total lookup that interpolation resolves a reference against:
/// the entry in `vars` when there is one, else the entry in `env`, else
/// the empty string.  An unresolved reference therefore never errors.
pub open spec fn spec_ctx(
    vars: Seq<(Seq<char>, Seq<char>)>,
    env: Seq<(Seq<char>, Seq<char>)>,
) -> Map<Seq<char>, Seq<char>> {
    Map::total(
        |k: Seq<char>|
            if has_key(vars, k) {
                lookup(vars, k)
            } else if has_key(env, k) {
                lookup(env, k)
            } else {
                Seq::empty()
            },
    )
}

/// The value a name resolves to: `vars` first, then `env`, then the
/// empty string.
pub fn ctx_lookup(vars: &VarMap, env: &VarMap, name: &str) -> (r: String)
    ensures
        r@ == spec_ctx(vars@, env@)[name@],
{
    match vars.get(name) {
        Some(v) => v.clone(),
        None => match env.get(name) {
            Some(v) => v.clone(),
            None => String::new(),
        },
    }
}

/// Relies on shellexpand::env_with_context_no_errors: it rewrites each
/// `$NAME` and `${NAME}` reference in `raw` to what the context function
/// returns for NAME, leaves all other text alone, and the context below
/// answers every name, so the result is a function of `raw` and that
/// lookup alone.
#[verifier::external_body]
fn expand_with(raw: &str, vars: &VarMap, env: &VarMap) -> (r: String)
    ensures
        r@ == expand_of(raw@, spec_ctx(vars@, env@)),
        !raw@.contains('$') ==> r@ == raw@,
{
    shellexpand::env_with_context_no_errors(
        raw,
        |name: &str| -> Option<String> { Some(ctx_lookup(vars, env, name)) },
    ).into_owned()
}

/// Interpolate `$NAME` and `${NAME}` references in `raw`: a name means
/// its entry in `vars`, else its entry in the environment provider
/// `env`, else the empty string.
pub fn expand(raw: &str, vars: &VarMap, env: &VarMap) -> (r: String)
    ensures
        r@ == expand_of(raw@, spec_ctx(vars@, env@)),
        !raw@.contains('$') ==> r@ == raw@,
{
    expand_with(raw, vars, env)
}

/// What shell-word splitting makes of a text: its words after quote
/// removal, or nothing when the quoting is unbalanced.
pub uninterp spec fn split_of(s: Seq<char>) -> Option<Seq<Seq<char>>>;

/// Relies on shell_words::split: POSIX-style word splitting with quote
/// removal, failing exactly on an unmatched quote; the result is a
/// function of the input string alone.
#[verifier::external_body]
fn split_words(s: &str) -> (r: Option<Vec<String>>)
    ensures
        match r {
            Some(v) => split_of(s@) == Some(v.deep_view()),
            None => split_of(s@) is None,
        },
{
    match shell_words::split(s) {
        Ok(v) => Some(v),
        Err(_) => None,
    }
}

/// Expand a command string, then split it into argument words; an
/// unbalanced quoting in the expanded text is a `ShellSplit` error that
/// carries that text.
pub fn build_args(command: &str, vars: &VarMap, env: &VarMap) -> (r: Result<Vec<String>, Error>)
    ensures
        match r {
            Ok(v) => split_of(expand_of(command@, spec_ctx(vars@, env@))) == Some(v.deep_view()),
            Err(e) => e matches Error::ShellSplit(t) && t@ == expand_of(
                command@,
                spec_ctx(vars@, env@),
            ) && split_of(expand_of(command@, spec_ctx(vars@, env@))) is None,
        },
{
    let expanded = expand(command, vars, env);
    match split_words(expanded.as_str()) {
        Some(v) => Ok(v),
        None => Err(Error::ShellSplit(expanded)),
    }
}

} // verus!
