use vstd::prelude::*;

pub mod expr;
pub mod recipe;
pub mod task;
pub mod remote;
pub mod util;
pub mod vars;

verus! {

/// The ways a request to the engine can fail.
#[derive(Debug, Clone, PartialEq, Eq)]
pub enum Error {
    /// A boolean environment expression was malformed.
    Parse,
    /// A moldfile demanded a tool version that the running tool does not satisfy.
    VersionMismatch,
    /// A requested or required recipe name has no entry in the namespace.
    RecipeNotFound(String),
    /// A command string had unbalanced quoting.
    ShellSplit(String),
    /// A recipe's requirements loop back onto the recipe itself.
    CyclicDependency(String),
    /// A module reference cannot be executed directly.
    NotExecutable(String),
}

/// Mathematical form of the application state.
pub struct SpecMold {
    pub envs: Seq<Seq<char>>,
    pub recipes: Seq<(Seq<char>, recipe::SpecRecipe)>,
    pub sources: Seq<(Seq<char>, Seq<char>)>,
    pub vars: Seq<(Seq<char>, Seq<char>)>,
    pub conditional: Seq<(Seq<char>, Seq<(Seq<char>, Seq<char>)>)>,
    pub remotes: Seq<remote::SpecRemote>,
    pub visited: Seq<Seq<char>>,
    pub root_dir: Seq<char>,
    pub mold_dir: Seq<char>,
    pub work_dir: Option<Seq<char>>,
}

/// The application state for one invocation: the merged namespace of
/// the root configuration and everything it transitively includes.
pub struct Mold {
    /// The active environment names.
    pub envs: Vec<String>,
    /// The merged recipe namespace.
    pub recipes: recipe::RecipeSet,
    /// Where each recipe came from, keyed by its merged name.
    pub sources: vars::VarMap,
    /// The merged top-level variables.
    pub vars: vars::VarMap,
    /// The merged conditional variable overlays.
    pub conditional: Vec<(String, vars::VarMap)>,
    /// Every remote that was included, in the order it was reached.
    pub remotes: Vec<remote::Remote>,
    /// Cache folders already claimed during this resolution pass.
    pub visited: Vec<String>,
    /// The directory of the root configuration file.
    pub root_dir: String,
    /// The cache directory for cloned collections and generated
    /// scripts.
    pub mold_dir: String,
    /// The working-directory override propagated from the namespace.
    pub work_dir: Option<String>,
}

impl View for Mold {
    type V = SpecMold;

    open spec fn view(&self) -> SpecMold {
        SpecMold {
            envs: self.envs.deep_view(),
            recipes: self.recipes@,
            sources: self.sources@,
            vars: self.vars@,
            conditional: self.conditional.deep_view(),
            remotes: self.remotes.deep_view(),
            visited: self.visited.deep_view(),
            root_dir: self.root_dir@,
            mold_dir: self.mold_dir@,
            work_dir: match self.work_dir {
                Some(d) => Some(d@),
                None => None,
            },
        }
    }
}

/// Whether a version requirement text admits a version text.
pub uninterp spec fn version_match_of(req: Seq<char>, ver: Seq<char>) -> Option<bool>;

/// Relies on semver::VersionReq::parse, semver::Version::parse and
/// semver::VersionReq::matches: whether the requirement text admits the
/// version text, a function of the two texts alone, and nothing when
/// either text does not parse.
#[verifier::external_body]
fn version_match(req: &str, ver: &str) -> (r: Option<bool>)
    ensures
        r == version_match_of(req@, ver@),
{
    match (semver::VersionReq::parse(req), semver::Version::parse(ver)) {
        (Ok(rq), Ok(v)) => Some(rq.matches(&v)),
        _ => None,
    }
}

/// The recipe namespace after adopting every recipe of `src` under
/// `prefix`: each incoming name and each of its `requires` entries is
/// prefixed, the search directory defaults to `dir`, and a name that is
/// already present wins over the incoming one.
pub open spec fn spec_merge_recipes(
    rs: Seq<(Seq<char>, recipe::SpecRecipe)>,
    src: Seq<(Seq<char>, recipe::SpecRecipe)>,
    prefix: Seq<char>,
    dir: Seq<char>,
) -> Seq<(Seq<char>, recipe::SpecRecipe)>
    decreases src.len(),
{
    if src.len() == 0 {
        rs
    } else {
        let key = prefix + src[0].0;
        let step = if vars::has_key(rs, key) {
            rs
        } else {
            rs.push((key, recipe::spec_adopted(src[0].1, prefix, dir)))
        };
        spec_merge_recipes(step, src.skip(1), prefix, dir)
    }
}

/// The provenance map after recording `dir` for every adopted recipe
/// name, first writer wins.
pub open spec fn spec_merge_sources(
    ss: Seq<(Seq<char>, Seq<char>)>,
    src: Seq<(Seq<char>, recipe::SpecRecipe)>,
    prefix: Seq<char>,
    dir: Seq<char>,
) -> Seq<(Seq<char>, Seq<char>)>
    decreases src.len(),
{
    if src.len() == 0 {
        ss
    } else {
        let key = prefix + src[0].0;
        let step = if vars::has_key(ss, key) {
            ss
        } else {
            ss.push((key, dir))
        };
        spec_merge_sources(step, src.skip(1), prefix, dir)
    }
}

impl Mold {
    /// The namespace, provenance and variable maps all keep their keys
    /// unique.
    pub open spec fn wf(self) -> bool {
        vars::distinct_keys(self@.recipes) && vars::distinct_keys(self@.sources)
            && vars::distinct_keys(self@.vars)
    }

    /// A fresh application state rooted at `root_dir`, with its cache
    /// at `mold_dir` and the reserved root and cache variables already
    /// seeded.
    pub fn init(root_dir: String, mold_dir: String, envs: Vec<String>) -> (m: Mold)
        ensures
            m.wf(),
            m@.envs == envs.deep_view(),
            m@.recipes == Seq::<(Seq<char>, recipe::SpecRecipe)>::empty(),
            m@.sources == Seq::<(Seq<char>, Seq<char>)>::empty(),
            m@.vars == seq![("MOLD_ROOT"@, root_dir@), ("MOLD_DIR"@, mold_dir@)],
            m@.conditional == Seq::<(Seq<char>, Seq<(Seq<char>, Seq<char>)>)>::empty(),
            m@.remotes == Seq::<remote::SpecRemote>::empty(),
            m@.visited == Seq::<Seq<char>>::empty(),
            m@.root_dir == root_dir@,
            m@.mold_dir == mold_dir@,
            m@.work_dir is None,
    {
        let mut vm = vars::VarMap::new();
        vm.insert("MOLD_ROOT".to_owned(), root_dir.clone());
        vm.insert("MOLD_DIR".to_owned(), mold_dir.clone());
        proof {
            reveal_strlit("MOLD_ROOT");
            reveal_strlit("MOLD_DIR");
            assert("MOLD_ROOT"@.len() != "MOLD_DIR"@.len());
            let s0 = Seq::<(Seq<char>, Seq<char>)>::empty();
            assert(!vars::has_key(s0, "MOLD_ROOT"@));
            let s1 = s0.push(("MOLD_ROOT"@, root_dir@));
            assert(s1.skip(1) =~= s0);
            assert(!vars::has_key(s0, "MOLD_DIR"@));
            assert(s1[0].0 == "MOLD_ROOT"@);
            assert(!vars::has_key(s1, "MOLD_DIR"@));
            assert(vm@ =~= seq![("MOLD_ROOT"@, root_dir@), ("MOLD_DIR"@, mold_dir@)]);
        }
        let m = Mold {
            envs: envs,
            recipes: recipe::RecipeSet::new(),
            sources: vars::VarMap::new(),
            vars: vm,
            conditional: Vec::new(),
            remotes: Vec::new(),
            visited: Vec::new(),
            root_dir: root_dir,
            mold_dir: mold_dir,
            work_dir: None,
        };
        proof {
            assert(m@.conditional =~= Seq::<(Seq<char>, Seq<(Seq<char>, Seq<char>)>)>::empty());
            assert(m@.remotes =~= Seq::<remote::SpecRemote>::empty());
            assert(m@.visited =~= Seq::<Seq<char>>::empty());
        }
        m
    }

    /// Merge one opened configuration unit into the namespace under
    /// `prefix`, recording `source_dir` as the provenance of every
    /// adopted recipe.  Fails, changing nothing, when the file's
    /// version requirement does not admit `tool_version`.  Returns the
    /// includes that remain to be opened, in declaration order.
    pub fn merge_moldfile(
        &mut self,
        data: recipe::Moldfile,
        prefix: &str,
        source_dir: &str,
        tool_version: &str,
    ) -> (r: Result<Vec<recipe::Include>, Error>)
        requires
            old(self).wf(),
        ensures
            final(self).wf(),
            match r {
                Ok(includes) => version_match_of(data@.version, tool_version@) == Some(true)
                    && includes.deep_view() == data@.includes && final(self)@ == (SpecMold {
                    recipes: spec_merge_recipes(
                        old(self)@.recipes,
                        data@.recipes,
                        prefix@,
                        source_dir@,
                    ),
                    sources: spec_merge_sources(
                        old(self)@.sources,
                        data@.recipes,
                        prefix@,
                        source_dir@,
                    ),
                    vars: vars::spec_adopt(old(self)@.vars, data@.variables),
                    conditional: vars::spec_adopt(old(self)@.conditional, data@.conditional),
                    work_dir: if data@.work_dir is Some {
                        data@.work_dir
                    } else {
                        old(self)@.work_dir
                    },
                    ..old(self)@
                }),
                Err(e) => e == Error::VersionMismatch && version_match_of(
                    data@.version,
                    tool_version@,
                ) != Some(true) && final(self)@ == old(self)@,
            },
    {
        let ghost orig = self@;
        let ghost dv = data@;
        match version_match(data.version.as_str(), tool_version) {
            Some(true) => {},
            _ => {
                return Err(Error::VersionMismatch);
            },
        }
        let recipe::Moldfile { version: _, includes, mut recipes, variables, conditional, work_dir } =
            data;
        let ghost src = dv.recipes;
        let ghost n = src.len();
        proof {
            assert(src.skip(0) =~= src);
        }
        let ghost mut taken: int = 0;
        while recipes.len() > 0
            invariant
                self.wf(),
                n == src.len(),
                0 <= taken <= n,
                recipes@ =~= src.skip(taken),
                spec_merge_recipes(self@.recipes, src.skip(taken), prefix@, source_dir@)
                    == spec_merge_recipes(orig.recipes, src, prefix@, source_dir@),
                spec_merge_sources(self@.sources, src.skip(taken), prefix@, source_dir@)
                    == spec_merge_sources(orig.sources, src, prefix@, source_dir@),
                self@ == (SpecMold { recipes: self@.recipes, sources: self@.sources, ..orig }),
            decreases n - taken,
        {
            proof {
                assert(src.skip(taken)[0] == src[taken]);
                assert(src.skip(taken).skip(1) =~= src.skip(taken + 1));
            }
            match recipes.take_first() {
                None => {},
                Some((name, rec)) => {
                    let new_key = prefix.to_owned().concat(name.as_str());
                    let adopted = rec.adopt(prefix, source_dir);
                    self.recipes.insert_absent(new_key.clone(), adopted);
                    self.sources.insert_absent(new_key, source_dir.to_owned());
                },
            }
            proof {
                taken = taken + 1;
            }
        }
        proof {
            assert(src.skip(taken).len() == 0);
        }
        self.vars.extend_absent(&variables);
        adopt_cond(&mut self.conditional, conditional);
        if let Some(dir) = work_dir {
            self.work_dir = Some(dir);
        }
        Ok(includes)
    }

    /// Plan one include: record the remote, claim its cache folder in
    /// the visited set, and say whether the Remote Fetcher must run,
    /// which is only when the folder is neither on disk nor already
    /// claimed during this pass.
    pub fn plan_include(&mut self, rem: &remote::Remote, on_disk: bool) -> (fetch: bool)
        ensures
            fetch == spec_fetch_decision(old(self)@, rem@, on_disk),
            final(self)@ == spec_after_include(old(self)@, rem@),
    {
        let ghost orig = self@;
        let path = rem.path(self.mold_dir.as_str());
        let ghost pre_remotes = self.remotes.deep_view();
        self.remotes.push(rem.duplicate());
        proof {
            assert(self.remotes.deep_view() =~= pre_remotes.push(rem@));
        }
        let known = expr::contains_string(&self.visited, &path);
        if !known {
            let ghost pre_visited = self.visited.deep_view();
            self.visited.push(path);
            proof {
                assert(self.visited.deep_view() =~= pre_visited.push(
                    spec_include_path(orig, rem@),
                ));
            }
            !on_disk
        } else {
            false
        }
    }
}

/// Whether `x` stands somewhere before position `i` in the list.
pub open spec fn listed_earlier(out: Seq<Seq<char>>, i: int, x: Seq<char>) -> bool {
    exists|j: int| 0 <= j < i && out[j] == x
}

/// Whether every requirement of the name at position `i` stands
/// somewhere before `i` in the list.
pub open spec fn deps_listed_before(
    recipes: Seq<(Seq<char>, recipe::SpecRecipe)>,
    out: Seq<Seq<char>>,
    i: int,
) -> bool {
    forall|d: int|
        0 <= d < recipe::reqs_of(recipes, out[i]).len() ==> listed_earlier(
            out,
            i,
            #[trigger] recipe::reqs_of(recipes, out[i])[d],
        )
}

/// What `find_all_dependencies` guarantees of its answer: every listed
/// name has a recipe, no name is listed twice, and every requirement of
/// a listed name stands earlier in the list, so that executing the list
/// in order always runs a recipe after its requirements.
pub open spec fn dep_closed(
    recipes: Seq<(Seq<char>, recipe::SpecRecipe)>,
    out: Seq<Seq<char>>,
) -> bool {
    out.no_duplicates() && (forall|i: int|
        0 <= i < out.len() ==> vars::has_key(recipes, #[trigger] out[i]) && deps_listed_before(
            recipes,
            out,
            i,
        ))
}

/// A witness that the requirement graph loops: a nonempty chain of
/// names, each requiring the next, whose last requires the first again.
pub open spec fn is_req_cycle(
    recipes: Seq<(Seq<char>, recipe::SpecRecipe)>,
    chain: Seq<Seq<char>>,
) -> bool {
    chain.len() > 0 && (forall|i: int|
        0 <= i < chain.len() ==> vars::has_key(recipes, #[trigger] chain[i])) && (forall|i: int|
        0 <= i < chain.len() - 1 ==> recipe::reqs_of(recipes, #[trigger] chain[i]).contains(
            chain[i + 1],
        )) && recipe::reqs_of(recipes, chain[chain.len() - 1]).contains(chain[0])
}

/// Whether some requirement chain loops back onto itself.
pub open spec fn has_req_cycle(recipes: Seq<(Seq<char>, recipe::SpecRecipe)>) -> bool {
    exists|chain: Seq<Seq<char>>| is_req_cycle(recipes, chain)
}

/// A walk along requirement edges: each name requires the next.
pub open spec fn is_req_path(
    recipes: Seq<(Seq<char>, recipe::SpecRecipe)>,
    path: Seq<Seq<char>>,
) -> bool {
    forall|i: int|
        0 <= i < path.len() - 1 ==> recipe::reqs_of(recipes, #[trigger] path[i]).contains(
            path[i + 1],
        )
}

/// Whether requirement edges lead from `from` to `to`.
pub open spec fn reaches(
    recipes: Seq<(Seq<char>, recipe::SpecRecipe)>,
    from: Seq<char>,
    to: Seq<char>,
) -> bool {
    exists|path: Seq<Seq<char>>|
        is_req_path(recipes, path) && path.len() > 0 && path[0] == from && path[path.len() - 1]
            == to
}

/// Every name leads to itself.
pub proof fn lemma_reaches_refl(recipes: Seq<(Seq<char>, recipe::SpecRecipe)>, n: Seq<char>)
    ensures
        reaches(recipes, n, n),
{
    let path = seq![n];
    assert(is_req_path(recipes, path));
    assert(path[0] == n && path[path.len() - 1] == n);
}

/// One more requirement edge extends a walk.
pub proof fn lemma_reaches_step(
    recipes: Seq<(Seq<char>, recipe::SpecRecipe)>,
    a: Seq<char>,
    b: Seq<char>,
    c: Seq<char>,
)
    requires
        reaches(recipes, a, b),
        recipe::reqs_of(recipes, b).contains(c),
    ensures
        reaches(recipes, a, c),
{
    let path = choose|path: Seq<Seq<char>>|
        is_req_path(recipes, path) && path.len() > 0 && path[0] == a && path[path.len() - 1] == b;
    let ext = path.push(c);
    assert forall|i: int|
        0 <= i < ext.len() - 1 implies recipe::reqs_of(recipes, #[trigger] ext[i]).contains(
        ext[i + 1],
    ) by {
        if i < path.len() - 1 {
            assert(ext[i] == path[i]);
            assert(ext[i + 1] == path[i + 1]);
        } else {
            assert(ext[i] == path[path.len() - 1]);
            assert(ext[i + 1] == c);
        }
    }
    assert(ext[0] == a && ext[ext.len() - 1] == c);
}

/// Whether `n` lies on a requirement cycle and `from` reaches `n`: the
/// only situation in which resolving `from` can run into a cycle at
/// `n`.
pub open spec fn on_reachable_cycle(
    recipes: Seq<(Seq<char>, recipe::SpecRecipe)>,
    from: Seq<char>,
    n: Seq<char>,
) -> bool {
    reaches(recipes, from, n) && exists|chain: Seq<Seq<char>>|
        is_req_cycle(recipes, chain) && chain[0] == n
}

/// Whether one of the requested targets reaches `n` along requirement
/// edges.
pub open spec fn from_targets(
    recipes: Seq<(Seq<char>, recipe::SpecRecipe)>,
    targets: Seq<Seq<char>>,
    n: Seq<char>,
) -> bool {
    exists|t2: int| 0 <= t2 < targets.len() && reaches(recipes, #[trigger] targets[t2], n)
}

/// Whether one of the requested targets runs into a requirement cycle
/// at `n`.
pub open spec fn cycle_from_targets(
    recipes: Seq<(Seq<char>, recipe::SpecRecipe)>,
    targets: Seq<Seq<char>>,
    n: Seq<char>,
) -> bool {
    exists|t2: int|
        0 <= t2 < targets.len() && on_reachable_cycle(recipes, #[trigger] targets[t2], n)
}

proof fn lemma_prefix_contains(a: Seq<Seq<char>>, b: Seq<Seq<char>>, x: Seq<char>)
    requires
        a.is_prefix_of(b),
        a.contains(x),
    ensures
        b.contains(x),
{
    let i = choose|i: int| 0 <= i < a.len() && a[i] == x;
    assert(b[i] == x);
}

proof fn lemma_distinct_names(recipes: Seq<(Seq<char>, recipe::SpecRecipe)>, s: Seq<Seq<char>>)
    requires
        vars::distinct_keys(recipes),
        s.no_duplicates(),
        forall|i: int| 0 <= i < s.len() ==> vars::has_key(recipes, #[trigger] s[i]),
    ensures
        s.len() <= recipes.len(),
{
    broadcast use vstd::seq_lib::seq_to_set_is_finite;

    let keys = recipes.map_values(|p: (Seq<char>, recipe::SpecRecipe)| p.0);
    assert(keys.no_duplicates());
    s.unique_seq_to_set();
    keys.unique_seq_to_set();
    assert forall|x: Seq<char>| s.to_set().contains(x) implies keys.to_set().contains(x) by {
        let i = choose|i: int| 0 <= i < s.len() && s[i] == x;
        vars::lemma_has_key_index(recipes, x);
        let j = choose|j: int| 0 <= j < recipes.len() && recipes[j].0 == x;
        assert(keys[j] == x);
    }
    vstd::set_lib::lemma_len_subset(s.to_set(), keys.to_set());
}

impl Mold {
    /// Resolve the requirements of one recipe, depth first: every name
    /// reached is appended to `out` after its own requirements, once.
    /// `stack` holds the names whose resolution is under way, so that a
    /// dependency cycle is refused instead of recursed into forever.
    #[verifier::loop_isolation(false)]
    fn find_dependencies(
        &self,
        name: &String,
        origin: Ghost<Seq<char>>,
        stack: &mut Vec<String>,
        out: &mut Vec<String>,
    ) -> (r: Result<(), Error>)
        requires
            self.wf(),
            reaches(self@.recipes, origin@, name@),
            old(stack).deep_view().no_duplicates(),
            forall|i: int|
                0 <= i < old(stack).deep_view().len() ==> vars::has_key(
                    self@.recipes,
                    #[trigger] old(stack).deep_view()[i],
                ),
            dep_closed(self@.recipes, old(out).deep_view()),
            forall|i: int|
                0 <= i < old(stack).deep_view().len() - 1 ==> recipe::reqs_of(
                    self@.recipes,
                    #[trigger] old(stack).deep_view()[i],
                ).contains(old(stack).deep_view()[i + 1]),
            old(stack).deep_view().len() > 0 ==> recipe::reqs_of(
                self@.recipes,
                old(stack).deep_view()[old(stack).deep_view().len() - 1],
            ).contains(name@),
        ensures
            match r {
                Ok(()) => final(stack).deep_view() == old(stack).deep_view() && old(
                    out,
                ).deep_view().is_prefix_of(final(out).deep_view()) && dep_closed(
                    self@.recipes,
                    final(out).deep_view(),
                ) && final(out).deep_view().contains(name@) && (forall|j: int|
                    old(out).deep_view().len() <= j < final(out).deep_view().len() ==> !old(
                        stack,
                    ).deep_view().contains(#[trigger] final(out).deep_view()[j])) && (forall|
                    j: int,
                |
                    old(out).deep_view().len() <= j < final(out).deep_view().len() ==> reaches(
                        self@.recipes,
                        origin@,
                        #[trigger] final(out).deep_view()[j],
                    )),
                Err(e) => match e {
                    Error::RecipeNotFound(n) => !vars::has_key(self@.recipes, n@) && reaches(
                        self@.recipes,
                        origin@,
                        n@,
                    ),
                    Error::CyclicDependency(n) => on_reachable_cycle(self@.recipes, origin@, n@),
                    _ => false,
                },
            },
        decreases self@.recipes.len() - old(stack).deep_view().len(),
    {
        let ghost rs = self@.recipes;
        let ghost stack0 = stack.deep_view();
        let ghost out0 = out.deep_view();
        if expr::contains_string(out, name) {
            proof {
                assert(out0.is_prefix_of(out0)) by {
                    assert(out0.subrange(0, out0.len() as int) =~= out0);
                }
            }
            return Ok(());
        }
        if expr::contains_string(stack, name) {
            proof {
                let idx = choose|idx: int| 0 <= idx < stack0.len() && stack0[idx] == name@;
                let chain = stack0.skip(idx);
                assert(chain[0] == stack0[idx]);
                assert forall|i: int| 0 <= i < chain.len() implies vars::has_key(
                    rs,
                    #[trigger] chain[i],
                ) by {
                    assert(chain[i] == stack0[idx + i]);
                }
                assert forall|i: int|
                    0 <= i < chain.len() - 1 implies recipe::reqs_of(
                    rs,
                    #[trigger] chain[i],
                ).contains(chain[i + 1]) by {
                    assert(chain[i] == stack0[idx + i]);
                    assert(chain[i + 1] == stack0[idx + i + 1]);
                }
                assert(chain[chain.len() - 1] == stack0[stack0.len() - 1]);
                assert(is_req_cycle(rs, chain));
                assert(chain[0] == name@);
                assert(on_reachable_cycle(rs, origin@, name@));
            }
            return Err(Error::CyclicDependency(name.clone()));
        }
        let rec = match self.recipes.get(name.as_str()) {
            Some(rec) => rec,
            None => {
                return Err(Error::RecipeNotFound(name.clone()));
            },
        };
        proof {
            lemma_distinct_names(rs, stack0);
        }
        stack.push(name.clone());
        proof {
            assert(stack.deep_view() =~= stack0.push(name@));
            assert forall|a: int, b: int|
                0 <= a < b < stack.deep_view().len() implies stack.deep_view()[a]
                != stack.deep_view()[b] by {
                if b < stack0.len() {
                    assert(stack0[a] != stack0[b]);
                } else {
                    assert(stack.deep_view()[b] == name@);
                    assert(!stack0.contains(name@));
                    assert(stack.deep_view()[a] == stack0[a]);
                }
            }
        }
        let reqs = &rec.base().requires;
        proof {
            assert(reqs.deep_view() == recipe::reqs_of(rs, name@));
            lemma_distinct_names(rs, stack.deep_view());
        }
        let mut i: usize = 0;
        while i < reqs.len()
            invariant
                self.wf(),
                rs == self@.recipes,
                stack.deep_view().len() <= rs.len(),
                reqs.deep_view() == recipe::reqs_of(rs, name@),
                reqs.deep_view().len() == reqs@.len(),
                0 <= i <= reqs@.len(),
                !stack0.contains(name@),
                stack.deep_view() == stack0.push(name@),
                stack.deep_view().no_duplicates(),
                forall|m: int|
                    0 <= m < stack.deep_view().len() ==> vars::has_key(
                        rs,
                        #[trigger] stack.deep_view()[m],
                    ),
                dep_closed(rs, out.deep_view()),
                out0.is_prefix_of(out.deep_view()),
                !out.deep_view().contains(name@),
                forall|j: int|
                    out0.len() <= j < out.deep_view().len() ==> !stack0.contains(
                        #[trigger] out.deep_view()[j],
                    ),
                forall|j: int|
                    out0.len() <= j < out.deep_view().len() ==> reaches(
                        rs,
                        origin@,
                        #[trigger] out.deep_view()[j],
                    ),
                forall|d: int|
                    0 <= d < i ==> out.deep_view().contains(#[trigger] reqs.deep_view()[d]),
            decreases reqs@.len() - i,
        {
            let ghost mid = out.deep_view();
            let d = &reqs[i];
            proof {
                let sv = stack.deep_view();
                assert forall|m2: int|
                    0 <= m2 < sv.len() - 1 implies recipe::reqs_of(
                    rs,
                    #[trigger] sv[m2],
                ).contains(sv[m2 + 1]) by {
                    if m2 < stack0.len() - 1 {
                        assert(sv[m2] == stack0[m2]);
                        assert(sv[m2 + 1] == stack0[m2 + 1]);
                    } else {
                        assert(sv[m2] == stack0[stack0.len() - 1]);
                        assert(sv[m2 + 1] == name@);
                    }
                }
                assert(recipe::reqs_of(rs, name@).contains(d@)) by {
                    assert(recipe::reqs_of(rs, name@)[i as int] == d@);
                }
                assert(sv[sv.len() - 1] == name@);
                lemma_reaches_step(rs, origin@, name@, d@);
            }
            match self.find_dependencies(d, origin, stack, out) {
                Ok(()) => {},
                Err(e) => {
                    return Err(e);
                },
            }
            proof {
                assert forall|j: int|
                    out0.len() <= j < out.deep_view().len() implies !stack0.contains(
                    #[trigger] out.deep_view()[j],
                ) by {
                    if j < mid.len() {
                        assert(out.deep_view()[j] == mid[j]);
                    } else {
                        assert(!stack0.push(name@).contains(out.deep_view()[j]));
                        if stack0.contains(out.deep_view()[j]) {
                            let w = choose|w: int|
                                0 <= w < stack0.len() && stack0[w] == out.deep_view()[j];
                            assert(stack0.push(name@)[w] == out.deep_view()[j]);
                        }
                    }
                }
                assert forall|j: int|
                    out0.len() <= j < out.deep_view().len() implies reaches(
                    rs,
                    origin@,
                    #[trigger] out.deep_view()[j],
                ) by {
                    if j < mid.len() {
                        assert(out.deep_view()[j] == mid[j]);
                    }
                }
                if out.deep_view().contains(name@) {
                    let w = choose|w: int|
                        0 <= w < out.deep_view().len() && out.deep_view()[w] == name@;
                    if w < mid.len() {
                        assert(mid[w] == name@);
                    } else {
                        assert(!stack0.push(name@).contains(out.deep_view()[w]));
                        assert(stack0.push(name@)[stack0.len() as int] == name@);
                    }
                    assert(false);
                }
                assert forall|dd: int|
                    0 <= dd < i + 1 implies out.deep_view().contains(
                    #[trigger] reqs.deep_view()[dd],
                ) by {
                    if dd < i {
                        lemma_prefix_contains(mid, out.deep_view(), reqs.deep_view()[dd]);
                    }
                }
                assert(out0.is_prefix_of(out.deep_view())) by {
                    assert(mid.is_prefix_of(out.deep_view()));
                    assert(out0.subrange(0, out0.len() as int) =~= out0);
                    assert(out.deep_view().subrange(0, out0.len() as int) =~= out0);
                }
            }
            i += 1;
        }
        let ghost prepop = stack.deep_view();
        let ghost prepopv = stack@;
        proof {
            assert(prepopv.len() == prepop.len());
            assert(prepopv.len() > 0);
        }
        stack.pop();
        proof {
            assert(stack@ == prepopv.subrange(0, prepopv.len() - 1));
            assert forall|i: int| 0 <= i < stack.deep_view().len() implies stack.deep_view()[i]
                == stack0[i] by {
                assert(stack@[i] == prepopv[i]);
                assert(prepop[i] == prepopv[i].deep_view());
                assert(prepop[i] == stack0.push(name@)[i]);
            }
            assert(stack.deep_view().len() == stack0.len());
            assert(stack.deep_view() =~= stack0);
        }
        let ghost mid = out.deep_view();
        out.push(name.clone());
        proof {
            assert(out.deep_view() =~= mid.push(name@));
            let outv = out.deep_view();
            assert forall|a: int, b: int|
                0 <= a < outv.len() && 0 <= b < outv.len() && a != b implies outv[a]
                != outv[b] by {
                let lo = if a < b { a } else { b };
                let hi = if a < b { b } else { a };
                if hi < mid.len() {
                    assert(mid[lo] != mid[hi]);
                } else {
                    assert(outv[hi] == name@);
                    assert(outv[lo] == mid[lo]);
                    if mid[lo] == name@ {
                        assert(mid.contains(name@));
                    }
                }
            }
            assert(outv.no_duplicates());
            assert forall|i2: int| 0 <= i2 < outv.len() implies vars::has_key(
                rs,
                #[trigger] outv[i2],
            ) && deps_listed_before(rs, outv, i2) by {
                if i2 < mid.len() {
                    assert(outv[i2] == mid[i2]);
                    assert(vars::has_key(rs, mid[i2]) && deps_listed_before(rs, mid, i2));
                    assert forall|d: int|
                        0 <= d < recipe::reqs_of(rs, outv[i2]).len() implies listed_earlier(
                        outv,
                        i2,
                        #[trigger] recipe::reqs_of(rs, outv[i2])[d],
                    ) by {
                        assert(recipe::reqs_of(rs, mid[i2])[d] == recipe::reqs_of(
                            rs,
                            outv[i2],
                        )[d]);
                        assert(listed_earlier(mid, i2, recipe::reqs_of(rs, mid[i2])[d]));
                        let j = choose|j: int|
                            0 <= j < i2 && mid[j] == recipe::reqs_of(rs, mid[i2])[d];
                        assert(outv[j] == recipe::reqs_of(rs, outv[i2])[d]);
                    }
                    assert(vars::has_key(rs, outv[i2]));
                    assert(deps_listed_before(rs, outv, i2));
                } else {
                    assert(outv[i2] == name@);
                    assert forall|d: int|
                        0 <= d < recipe::reqs_of(rs, outv[i2]).len() implies listed_earlier(
                        outv,
                        i2,
                        #[trigger] recipe::reqs_of(rs, outv[i2])[d],
                    ) by {
                        let x = recipe::reqs_of(rs, name@)[d];
                        assert(mid.contains(x));
                        let j = choose|j: int| 0 <= j < mid.len() && mid[j] == x;
                        assert(outv[j] == x);
                    }
                    assert(vars::has_key(rs, outv[i2]));
                    assert(deps_listed_before(rs, outv, i2));
                }
            }
            assert(outv[mid.len() as int] == name@);
            assert(outv.contains(name@));
            assert(out0.is_prefix_of(outv));
            assert(dep_closed(rs, outv));
            assert(mid.subrange(0, out0.len() as int) =~= out0);
            assert(outv.subrange(0, out0.len() as int) =~= out0);
            assert forall|j: int| out0.len() <= j < outv.len() implies !stack0.contains(
                #[trigger] outv[j],
            ) by {
                if j < mid.len() {
                    assert(outv[j] == mid[j]);
                } else {
                    assert(outv[j] == name@);
                    assert(!stack0.contains(name@));
                }
            }
            assert forall|j: int| out0.len() <= j < outv.len() implies reaches(
                rs,
                origin@,
                #[trigger] outv[j],
            ) by {
                if j < mid.len() {
                    assert(outv[j] == mid[j]);
                } else {
                    assert(outv[j] == name@);
                }
            }
        }
        Ok(())
    }

    /// Find every recipe that the requested targets transitively
    /// require, each name once, each listed after its requirements; a
    /// missing name is a `RecipeNotFound` error and a requirement loop
    /// is a `CyclicDependency` error.
    pub fn find_all_dependencies(&self, targets: &Vec<String>) -> (r: Result<Vec<String>, Error>)
        requires
            self.wf(),
        ensures
            match r {
                Ok(v) => dep_closed(self@.recipes, v.deep_view()) && (forall|t: int|
                    0 <= t < targets.deep_view().len() ==> v.deep_view().contains(
                        #[trigger] targets.deep_view()[t],
                    )) && (forall|j: int|
                    0 <= j < v.deep_view().len() ==> from_targets(
                        self@.recipes,
                        targets.deep_view(),
                        #[trigger] v.deep_view()[j],
                    )),
                Err(e) => match e {
                    Error::RecipeNotFound(n) => !vars::has_key(self@.recipes, n@) && from_targets(
                        self@.recipes,
                        targets.deep_view(),
                        n@,
                    ),
                    Error::CyclicDependency(n) => cycle_from_targets(
                        self@.recipes,
                        targets.deep_view(),
                        n@,
                    ),
                    _ => false,
                },
            },
    {
        let mut out: Vec<String> = Vec::new();
        let mut stack: Vec<String> = Vec::new();
        proof {
            assert(out.deep_view() =~= Seq::<Seq<char>>::empty());
            assert(stack.deep_view() =~= Seq::<Seq<char>>::empty());
        }
        let mut t: usize = 0;
        while t < targets.len()
            invariant
                self.wf(),
                0 <= t <= targets@.len(),
                targets.deep_view().len() == targets@.len(),
                stack.deep_view() == Seq::<Seq<char>>::empty(),
                dep_closed(self@.recipes, out.deep_view()),
                forall|m: int|
                    0 <= m < t ==> out.deep_view().contains(#[trigger] targets.deep_view()[m]),
                forall|j: int|
                    0 <= j < out.deep_view().len() ==> exists|t2: int|
                        0 <= t2 < t && reaches(
                            self@.recipes,
                            targets.deep_view()[t2],
                            #[trigger] out.deep_view()[j],
                        ),
            decreases targets@.len() - t,
        {
            let ghost mid = out.deep_view();
            proof {
                lemma_reaches_refl(self@.recipes, targets.deep_view()[t as int]);
            }
            let origin = Ghost(targets.deep_view()[t as int]);
            match self.find_dependencies(&targets[t], origin, &mut stack, &mut out) {
                Ok(()) => {},
                Err(e) => {
                    proof {
                        if let Error::RecipeNotFound(n) = &e {
                            assert(0 <= t < targets.deep_view().len() && reaches(
                                self@.recipes,
                                targets.deep_view()[t as int],
                                n@,
                            ));
                            assert(from_targets(self@.recipes, targets.deep_view(), n@));
                        }
                        if let Error::CyclicDependency(n) = &e {
                            assert(0 <= t < targets.deep_view().len() && on_reachable_cycle(
                                self@.recipes,
                                targets.deep_view()[t as int],
                                n@,
                            ));
                            assert(cycle_from_targets(self@.recipes, targets.deep_view(), n@));
                        }
                    }
                    return Err(e);
                },
            }
            proof {
                assert forall|m: int| 0 <= m < t + 1 implies out.deep_view().contains(
                    #[trigger] targets.deep_view()[m],
                ) by {
                    if m < t {
                        lemma_prefix_contains(mid, out.deep_view(), targets.deep_view()[m]);
                    }
                }
                assert forall|j: int| 0 <= j < out.deep_view().len() implies exists|t2: int|
                    0 <= t2 < t + 1 && reaches(
                        self@.recipes,
                        targets.deep_view()[t2],
                        #[trigger] out.deep_view()[j],
                    ) by {
                    if j < mid.len() {
                        assert(out.deep_view()[j] == mid[j]);
                        let w = choose|w: int|
                            0 <= w < t && reaches(self@.recipes, targets.deep_view()[w], mid[j]);
                        assert(0 <= w < t + 1 && reaches(
                            self@.recipes,
                            targets.deep_view()[w],
                            out.deep_view()[j],
                        ));
                    } else {
                        assert(reaches(
                            self@.recipes,
                            targets.deep_view()[t as int],
                            out.deep_view()[j],
                        ));
                    }
                }
            }
            t += 1;
        }
        proof {
            assert forall|j: int| 0 <= j < out.deep_view().len() implies from_targets(
                self@.recipes,
                targets.deep_view(),
                #[trigger] out.deep_view()[j],
            ) by {
                let w = choose|w: int|
                    0 <= w < t && reaches(
                        self@.recipes,
                        targets.deep_view()[w],
                        out.deep_view()[j],
                    );
                assert(0 <= w < targets.deep_view().len() && reaches(
                    self@.recipes,
                    targets.deep_view()[w],
                    out.deep_view()[j],
                ));
            }
        }
        Ok(out)
    }
}

/// Appending an entry never disturbs the recipe a present name
/// resolves to.
pub proof fn lemma_recipe_of_push_stable(
    rs: Seq<(Seq<char>, recipe::SpecRecipe)>,
    p: (Seq<char>, recipe::SpecRecipe),
    k: Seq<char>,
)
    requires
        vars::has_key(rs, k),
    ensures
        vars::has_key(rs.push(p), k),
        recipe::spec_recipe_of(rs.push(p), k) == recipe::spec_recipe_of(rs, k),
    decreases rs.len(),
{
    assert(rs.push(p)[0] == rs[0]);
    if rs[0].0 == k {
    } else {
        assert(rs.push(p).skip(1) =~= rs.skip(1).push(p));
        lemma_recipe_of_push_stable(rs.skip(1), p, k);
    }
}

/// The merge is parent-wins: a name that is already in the namespace
/// keeps its recipe through any merge, whatever an included file
/// declares under that name.
pub proof fn lemma_parent_wins(
    rs: Seq<(Seq<char>, recipe::SpecRecipe)>,
    src: Seq<(Seq<char>, recipe::SpecRecipe)>,
    prefix: Seq<char>,
    dir: Seq<char>,
    k: Seq<char>,
)
    requires
        vars::has_key(rs, k),
    ensures
        vars::has_key(spec_merge_recipes(rs, src, prefix, dir), k),
        recipe::spec_recipe_of(spec_merge_recipes(rs, src, prefix, dir), k)
            == recipe::spec_recipe_of(rs, k),
    decreases src.len(),
{
    if src.len() > 0 {
        let key = prefix + src[0].0;
        if vars::has_key(rs, key) {
            lemma_parent_wins(rs, src.skip(1), prefix, dir, k);
        } else {
            let step = rs.push((key, recipe::spec_adopted(src[0].1, prefix, dir)));
            lemma_recipe_of_push_stable(rs, (key, recipe::spec_adopted(src[0].1, prefix, dir)), k);
            lemma_parent_wins(step, src.skip(1), prefix, dir, k);
        }
    }
}

/// The cache folder an include resolves to.
pub open spec fn spec_include_path(m: SpecMold, r: remote::SpecRemote) -> Seq<char> {
    m.mold_dir + "/"@ + remote::spec_folder_name(r)
}

/// Whether an include must be fetched: only when its cache folder is
/// neither on disk nor already claimed during this pass.
pub open spec fn spec_fetch_decision(m: SpecMold, r: remote::SpecRemote, on_disk: bool) -> bool {
    !on_disk && !m.visited.contains(spec_include_path(m, r))
}

/// The state after planning an include: the remote is recorded, and its
/// cache folder is claimed in the visited set.
pub open spec fn spec_after_include(m: SpecMold, r: remote::SpecRemote) -> SpecMold {
    SpecMold {
        remotes: m.remotes.push(r),
        visited: if m.visited.contains(spec_include_path(m, r)) {
            m.visited
        } else {
            m.visited.push(spec_include_path(m, r))
        },
        ..m
    }
}

/// A remote identity is fetched at most once per resolution pass: once
/// an include of `a` is planned, planning any include `b` with the same
/// url and ref never asks for a fetch, whatever its file override and
/// whatever the disk shows.
pub proof fn lemma_fetch_at_most_once(
    m: SpecMold,
    a: remote::SpecRemote,
    b: remote::SpecRemote,
    on_disk: bool,
)
    requires
        a.url == b.url,
        a.ref_ == b.ref_,
    ensures
        !spec_fetch_decision(spec_after_include(m, a), b, on_disk),
{
    remote::lemma_remote_identity(a, b);
    let p = spec_include_path(m, a);
    let m2 = spec_after_include(m, a);
    assert(spec_include_path(m2, b) == p);
    if !m.visited.contains(p) {
        assert(m2.visited[m.visited.len() as int] == p);
        assert(m2.visited.contains(p));
    }
}

/// Adopt each conditional overlay of `src` whose test text is still
/// free: present entries win.
fn adopt_cond(dst: &mut Vec<(String, vars::VarMap)>, src: Vec<(String, vars::VarMap)>)
    ensures
        final(dst).deep_view() == vars::spec_adopt(old(dst).deep_view(), src.deep_view()),
{
    let ghost base = dst.deep_view();
    let ghost over = src.deep_view();
    let ghost n = over.len();
    let mut src = src;
    let ghost mut taken: int = 0;
    proof {
        assert(over.skip(0) =~= over);
    }
    while src.len() > 0
        invariant
            n == over.len(),
            0 <= taken <= n,
            src.deep_view() =~= over.skip(taken),
            vars::spec_adopt(dst.deep_view(), over.skip(taken)) == vars::spec_adopt(base, over),
        decreases n - taken,
    {
        proof {
            assert(over.skip(taken)[0] == over[taken]);
            assert(over.skip(taken).skip(1) =~= over.skip(taken + 1));
        }
        let ghost pre = dst.deep_view();
        let pair = src.remove(0);
        proof {
            assert(src.deep_view() =~= over.skip(taken + 1));
        }
        if !cond_has(dst, pair.0.as_str()) {
            dst.push(pair);
            proof {
                assert(dst.deep_view() =~= pre.push(over.skip(taken)[0]));
            }
        }
        proof {
            taken = taken + 1;
        }
    }
    proof {
        assert(over.skip(taken).len() == 0);
    }
}

/// Whether a conditional overlay for test text `k` is already present.
fn cond_has(v: &Vec<(String, vars::VarMap)>, k: &str) -> (r: bool)
    ensures
        r == vars::has_key(v.deep_view(), k@),
{
    let ghost full = v.deep_view();
    let kk = k.to_owned();
    let mut i: usize = 0;
    proof {
        assert(full.skip(0) =~= full);
    }
    while i < v.len()
        invariant
            0 <= i <= v@.len(),
            kk@ == k@,
            full == v.deep_view(),
            v@.len() == full.len(),
            vars::has_key(full, k@) == vars::has_key(full.skip(i as int), k@),
        decreases v@.len() - i,
    {
        proof {
            assert(full.skip(i as int)[0] == full[i as int]);
            assert(full.skip(i as int).skip(1) =~= full.skip(i as int + 1));
        }
        assert(full[i as int].0 == v@[i as int].0@);
        if v[i].0.eq(&kk) {
            return true;
        }
        i += 1;
    }
    proof {
        assert(full.skip(i as int).len() == 0);
    }
    false
}

} // verus!
