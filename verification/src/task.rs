//! Building an executable task from a resolved recipe: layered
//! variables, reserved variables, working directory, and the argument
//! vector of each recipe variant.

use vstd::prelude::*;

use crate::recipe;
use crate::remote;
use crate::util;
use crate::vars;
use crate::vars::VarMap;
use crate::Error;
use crate::Mold;
use crate::SpecMold;

verus! {

/// Mathematical form of a task.
pub struct SpecTask {
    pub name: Seq<char>,
    pub args: Seq<Seq<char>>,
    pub vars: Seq<(Seq<char>, Seq<char>)>,
    pub work_dir: Option<Seq<char>>,
    pub script: Option<(Seq<char>, Seq<char>)>,
}

/// A fully resolved executable descriptor: the argument vector, the
/// final variable map, the working directory, and an inline script to
/// materialize before invocation, if the recipe carries one.
#[derive(Debug)]
pub struct Task {
    /// The recipe name.
    pub name: String,
    /// The argument vector to spawn.
    pub args: Vec<String>,
    /// The environment handed to the process.
    pub vars: VarMap,
    /// The working directory, when one was declared.
    pub work_dir: Option<String>,
    /// An inline script body and the content-hashed path it must be
    /// written to before the task runs.
    pub script: Option<(String, String)>,
}

impl View for Task {
    type V = SpecTask;

    open spec fn view(&self) -> SpecTask {
        SpecTask {
            name: self.name@,
            args: self.args.deep_view(),
            vars: self.vars@,
            work_dir: match self.work_dir {
                Some(d) => Some(d@),
                None => None,
            },
            script: match self.script {
                Some((p, t)) => Some((p@, t@)),
                None => None,
            },
        }
    }
}

/// The variable map after expanding every entry in declaration order:
/// each value is interpolated against the entries already expanded,
/// then the environment provider, then the empty string.
pub open spec fn spec_expand_vars(
    done: Seq<(Seq<char>, Seq<char>)>,
    rest: Seq<(Seq<char>, Seq<char>)>,
    env: Seq<(Seq<char>, Seq<char>)>,
) -> Seq<(Seq<char>, Seq<char>)>
    decreases rest.len(),
{
    if rest.len() == 0 {
        done
    } else {
        spec_expand_vars(
            vars::spec_insert(done, rest[0].0, vars::expand_of(rest[0].1, vars::spec_ctx(done, env))),
            rest.skip(1),
            env,
        )
    }
}

/// Expand every entry of `m` in declaration order, resolving references
/// against the entries already expanded and the environment provider.
pub fn expand_all_vars(m: &VarMap, env: &VarMap) -> (r: VarMap)
    ensures
        r.wf(),
        r@ == spec_expand_vars(Seq::empty(), m@, env@),
{
    let ghost full = m@;
    let mut out = VarMap::new();
    let mut i: usize = 0;
    proof {
        assert(full.skip(0) =~= full);
    }
    while i < m.len()
        invariant
            0 <= i <= full.len(),
            m@ == full,
            out.wf(),
            spec_expand_vars(out@, full.skip(i as int), env@) == spec_expand_vars(
                Seq::empty(),
                full,
                env@,
            ),
        decreases full.len() - i,
    {
        proof {
            assert(full.skip(i as int)[0] == full[i as int]);
            assert(full.skip(i as int).skip(1) =~= full.skip(i as int + 1));
        }
        let value = vars::expand(m.val_at(i).as_str(), &out, env);
        out.insert(m.key_at(i).clone(), value);
        i += 1;
    }
    proof {
        assert(full.skip(i as int).len() == 0);
    }
    out
}

/// The content-hashed path an inline script is materialized to, inside
/// the cache directory: identical text always yields the same path.
pub open spec fn spec_script_path(mold_dir: Seq<char>, text: Seq<char>) -> Seq<char> {
    mold_dir + "/script-"@ + util::spec_dec(
        util::spec_hash(text, util::hash_seed()) as int,
    ) + ".sh"@
}

fn script_path(mold_dir: &str, text: &str) -> (r: String)
    ensures
        r@ == spec_script_path(mold_dir@, text@),
{
    let digest = util::dec_of(util::fold_hash(text, 0xcbf29ce484222325));
    mold_dir.to_owned().concat("/script-").concat(digest.as_str()).concat(".sh")
}

/// The variable map of a task before its working directory is known:
/// the merged globals layered by the active environments and expanded
/// in order, then the reserved provenance and search-directory
/// variables, which override any user entries of those names.
pub open spec fn spec_task_vars(m: SpecMold, name: Seq<char>, env: Seq<(Seq<char>, Seq<char>)>) -> Seq<
    (Seq<char>, Seq<char>),
> {
    let layered = vars::spec_env_vars(m.vars, m.conditional, m.envs);
    let expanded = spec_expand_vars(Seq::empty(), layered, env);
    let source = vars::lookup(m.sources, name);
    let with_source = vars::spec_insert(expanded, "MOLD_SOURCE"@, source);
    let rec = recipe::spec_recipe_of(m.recipes, name);
    let search = match recipe::spec_recipe_base(rec).search_dir {
        Some(d) => d,
        None => source,
    };
    vars::spec_insert(with_source, "MOLD_SEARCH"@, search)
}

/// The working directory of a task: the recipe's own override when it
/// has one, else the namespace default, expanded and joined onto the
/// root directory; none when neither is declared.
pub open spec fn spec_task_work_dir(
    m: SpecMold,
    rec: recipe::SpecRecipe,
    tvars: Seq<(Seq<char>, Seq<char>)>,
    env: Seq<(Seq<char>, Seq<char>)>,
) -> Option<Seq<char>> {
    let chosen = if recipe::spec_recipe_base(rec).work_dir is Some {
        recipe::spec_recipe_base(rec).work_dir
    } else {
        m.work_dir
    };
    match chosen {
        Some(d) => Some(util::spec_join(m.root_dir, vars::expand_of(d, vars::spec_ctx(tvars, env)))),
        None => None,
    }
}

/// What the shell program of a shell recipe is: the `SHELL` entry of
/// the task variables or the environment provider, or `sh` when neither
/// names one or names it empty.
pub open spec fn spec_shell_program(
    tvars: Seq<(Seq<char>, Seq<char>)>,
    env: Seq<(Seq<char>, Seq<char>)>,
) -> Seq<char> {
    let v = vars::spec_ctx(tvars, env)["SHELL"@];
    if v.len() == 0 {
        "sh"@
    } else {
        v
    }
}

fn shell_program(tvars: &VarMap, env: &VarMap) -> (r: String)
    ensures
        r@ == spec_shell_program(tvars@, env@),
{
    let v = vars::ctx_lookup(tvars, env, "SHELL");
    if v.unicode_len() == 0 {
        "sh".to_owned()
    } else {
        v
    }
}

/// What building a task for `name` yields, given the environment
/// provider `env`.
pub open spec fn spec_build_task(m: SpecMold, name: Seq<char>, env: Seq<(Seq<char>, Seq<char>)>) -> Result<
    SpecTask,
    Error,
> {
    if !vars::has_key(m.recipes, name) {
        Err(Error::RecipeNotFound(vstd::pervasive::arbitrary()))
    } else {
        let rec = recipe::spec_recipe_of(m.recipes, name);
        let tvars = spec_task_vars(m, name, env);
        let wd = spec_task_work_dir(m, rec, tvars, env);
        let fvars = vars::spec_insert(
            tvars,
            "MOLD_WORK"@,
            match wd {
                Some(d) => d,
                None => m.root_dir,
            },
        );
        match rec {
            recipe::SpecRecipe::Command(c) => Ok(
                SpecTask {
                    name: name,
                    args: c.command.map_values(
                        |a: Seq<char>| vars::expand_of(a, vars::spec_ctx(fvars, env)),
                    ),
                    vars: fvars,
                    work_dir: wd,
                    script: None,
                },
            ),
            recipe::SpecRecipe::Shell(sh) => {
                let (scr, svars) = match sh.script {
                    Some(text) => (
                        Some((spec_script_path(m.mold_dir, text), text)),
                        vars::spec_insert(
                            fvars,
                            "MOLD_SCRIPT"@,
                            spec_script_path(m.mold_dir, text),
                        ),
                    ),
                    None => (None, fvars),
                };
                Ok(
                    SpecTask {
                        name: name,
                        args: seq![
                            spec_shell_program(svars, env),
                            "-c"@,
                            vars::expand_of(sh.shell, vars::spec_ctx(svars, env)),
                        ],
                        vars: svars,
                        work_dir: wd,
                        script: scr,
                    },
                )
            },
            recipe::SpecRecipe::Module(_) => Err(Error::NotExecutable(vstd::pervasive::arbitrary())),
        }
    }
}

impl Mold {
    /// Construct the task for one recipe name: its final variables, its
    /// working directory, and its argument vector.  A name without a
    /// recipe is a `RecipeNotFound` error, and a module reference is a
    /// `NotExecutable` error rather than a task.
    pub fn build_task(&self, name: &String, env: &VarMap) -> (r: Result<Task, Error>)
        requires
            self.wf(),
        ensures
            match r {
                Ok(t) => spec_build_task(self@, name@, env@) == Ok::<SpecTask, Error>(t@),
                Err(e) => spec_build_task(self@, name@, env@) is Err && match e {
                    Error::RecipeNotFound(n) => n@ == name@ && !vars::has_key(self@.recipes, name@),
                    Error::NotExecutable(n) => n@ == name@ && vars::has_key(self@.recipes, name@)
                        && recipe::spec_recipe_of(self@.recipes, name@) is Module,
                    _ => false,
                },
            },
    {
        let rec = match self.recipes.get(name.as_str()) {
            Some(rec) => rec,
            None => {
                return Err(Error::RecipeNotFound(name.clone()));
            },
        };
        let layered = self.vars.env_vars(&self.conditional, &self.envs);
        let expanded = expand_all_vars(&layered, env);
        let mut tvars = expanded;
        let source = match self.sources.get(name.as_str()) {
            Some(s) => s.clone(),
            None => String::new(),
        };
        proof {
            if !vars::has_key(self@.sources, name@) {
                vars::lemma_lookup_absent(self@.sources, name@);
            }
            assert(source@ == vars::lookup(self@.sources, name@));
        }
        let search = match &rec.base().search_dir {
            Some(d) => d.clone(),
            None => source.clone(),
        };
        tvars.insert("MOLD_SOURCE".to_owned(), source);
        tvars.insert("MOLD_SEARCH".to_owned(), search);
        let chosen: Option<&String> = match &rec.base().work_dir {
            Some(d) => Some(d),
            None => match &self.work_dir {
                Some(d) => Some(d),
                None => None,
            },
        };
        let wd: Option<String> = match chosen {
            Some(d) => Some(
                util::join_path(
                    self.root_dir.as_str(),
                    vars::expand(d.as_str(), &tvars, env).as_str(),
                ),
            ),
            None => None,
        };
        let workv = match &wd {
            Some(d) => d.clone(),
            None => self.root_dir.clone(),
        };
        tvars.insert("MOLD_WORK".to_owned(), workv);
        match rec {
            recipe::Recipe::Command(c) => {
                let mut args: Vec<String> = Vec::new();
                let ghost cmd = c.command.deep_view();
                let mut i: usize = 0;
                while i < c.command.len()
                    invariant
                        0 <= i <= cmd.len(),
                        c.command.deep_view() == cmd,
                        args.deep_view() =~= cmd.take(i as int).map_values(
                            |a: Seq<char>| vars::expand_of(a, vars::spec_ctx(tvars@, env@)),
                        ),
                    decreases cmd.len() - i,
                {
                    let ghost pre = args.deep_view();
                    args.push(vars::expand(c.command[i].as_str(), &tvars, env));
                    proof {
                        assert(args.deep_view() =~= pre.push(
                            vars::expand_of(cmd[i as int], vars::spec_ctx(tvars@, env@)),
                        ));
                        assert(args.deep_view() =~= cmd.take(i as int + 1).map_values(
                            |a: Seq<char>| vars::expand_of(a, vars::spec_ctx(tvars@, env@)),
                        ));
                    }
                    i += 1;
                }
                proof {
                    assert(cmd.take(i as int) =~= cmd);
                }
                Ok(
                    Task {
                        name: name.clone(),
                        args: args,
                        vars: tvars,
                        work_dir: wd,
                        script: None,
                    },
                )
            },
            recipe::Recipe::Shell(sh) => {
                let (scr, svars) = match &sh.script {
                    Some(text) => {
                        let path = script_path(self.mold_dir.as_str(), text.as_str());
                        let mut sv = tvars;
                        sv.insert("MOLD_SCRIPT".to_owned(), path.clone());
                        (Some((path, text.clone())), sv)
                    },
                    None => (None, tvars),
                };
                let prog = shell_program(&svars, env);
                let text = vars::expand(sh.shell.as_str(), &svars, env);
                let mut args: Vec<String> = Vec::new();
                args.push(prog);
                args.push("-c".to_owned());
                args.push(text);
                proof {
                    assert(args.deep_view() =~= seq![
                        spec_shell_program(svars@, env@),
                        "-c"@,
                        vars::expand_of(sh.shell@, vars::spec_ctx(svars@, env@)),
                    ]);
                }
                Ok(
                    Task {
                        name: name.clone(),
                        args: args,
                        vars: svars,
                        work_dir: wd,
                        script: scr,
                    },
                )
            },
            recipe::Recipe::Module(_) => Err(Error::NotExecutable(name.clone())),
        }
    }
}

impl DeepView for Task {
    type V = SpecTask;

    open spec fn deep_view(&self) -> SpecTask {
        self.view()
    }
}

/// Whether `p` opens `s`.
pub open spec fn has_prefix(s: Seq<char>, p: Seq<char>) -> bool {
    p.len() <= s.len() && s.subrange(0, p.len() as int) == p
}

fn str_has_prefix(s: &str, p: &str) -> (r: bool)
    ensures
        r == has_prefix(s@, p@),
{
    let n = s.unicode_len();
    let m = p.unicode_len();
    if m > n {
        proof {
            assert(!has_prefix(s@, p@));
        }
        return false;
    }
    let head = s.substring_char(0, m).to_owned();
    let pp = p.to_owned();
    let eq = head.eq(&pp);
    proof {
        if eq {
            assert(s@.subrange(0, m as int) == p@);
        }
    }
    eq
}

/// The entries of a prefix-filtered listing: name, help text and
/// requirements of every recipe whose name carries the prefix.
pub open spec fn spec_listing_under(
    rs: Seq<(Seq<char>, recipe::SpecRecipe)>,
    p: Seq<char>,
) -> Seq<(Seq<char>, Seq<char>, Seq<Seq<char>>)>
    decreases rs.len(),
{
    if rs.len() == 0 {
        Seq::empty()
    } else {
        let rest = spec_listing_under(rs.skip(1), p);
        if has_prefix(rs[0].0, p) {
            seq![
                (
                    rs[0].0,
                    recipe::spec_recipe_base(rs[0].1).help,
                    recipe::spec_recipe_base(rs[0].1).requires,
                ),
            ] + rest
        } else {
            rest
        }
    }
}

/// The recipe names a task list came from, in order.
pub open spec fn spec_task_names(ts: Seq<SpecTask>) -> Seq<Seq<char>> {
    ts.map_values(|t: SpecTask| t.name)
}

/// A structured description of one recipe: its help text, its
/// requirements, and the task it resolves to.
#[derive(Debug)]
pub struct Explanation {
    /// The recipe name.
    pub name: String,
    /// Its help text.
    pub help: String,
    /// The recipes it requires.
    pub deps: Vec<String>,
    /// The task it builds into.
    pub task: Task,
}

impl Mold {
    /// Resolve the requested target names into the ordered task list:
    /// exactly the recipes the targets transitively require, each
    /// standing after its requirements, each built into its task.
    pub fn resolve(&self, targets: &Vec<String>, env: &VarMap) -> (r: Result<Vec<Task>, Error>)
        requires
            self.wf(),
        ensures
            match r {
                Ok(ts) => crate::dep_closed(self@.recipes, spec_task_names(ts.deep_view())) && (
                forall|t: int|
                    0 <= t < targets.deep_view().len() ==> spec_task_names(
                        ts.deep_view(),
                    ).contains(#[trigger] targets.deep_view()[t])) && (forall|i: int|
                    0 <= i < ts.deep_view().len() ==> crate::from_targets(
                        self@.recipes,
                        targets.deep_view(),
                        (#[trigger] ts.deep_view()[i]).name,
                    )) && (forall|i: int|
                    0 <= i < ts.deep_view().len() ==> spec_build_task(
                        self@,
                        #[trigger] ts.deep_view()[i].name,
                        env@,
                    ) == Ok::<SpecTask, Error>(ts.deep_view()[i])),
                Err(e) => match e {
                    Error::RecipeNotFound(n) => !vars::has_key(self@.recipes, n@)
                        && crate::from_targets(self@.recipes, targets.deep_view(), n@),
                    Error::CyclicDependency(n) => crate::cycle_from_targets(
                        self@.recipes,
                        targets.deep_view(),
                        n@,
                    ),
                    Error::NotExecutable(n) => vars::has_key(self@.recipes, n@)
                        && recipe::spec_recipe_of(self@.recipes, n@) is Module
                        && crate::from_targets(self@.recipes, targets.deep_view(), n@),
                    _ => false,
                },
            },
    {
        let names = match self.find_all_dependencies(targets) {
            Ok(v) => v,
            Err(e) => {
                return Err(e);
            },
        };
        let ghost nv = names.deep_view();
        let mut ts: Vec<Task> = Vec::new();
        let mut i: usize = 0;
        while i < names.len()
            invariant
                self.wf(),
                0 <= i <= names@.len(),
                names.deep_view() == nv,
                nv.len() == names@.len(),
                crate::dep_closed(self@.recipes, nv),
                forall|j: int|
                    0 <= j < nv.len() ==> crate::from_targets(
                        self@.recipes,
                        targets.deep_view(),
                        #[trigger] nv[j],
                    ),
                ts.deep_view().len() == i,
                spec_task_names(ts.deep_view()) =~= nv.take(i as int),
                forall|j: int|
                    0 <= j < i ==> spec_build_task(self@, #[trigger] ts.deep_view()[j].name, env@)
                        == Ok::<SpecTask, Error>(ts.deep_view()[j]),
            decreases names@.len() - i,
        {
            let ghost pre = ts.deep_view();
            let t = match self.build_task(&names[i], env) {
                Ok(t) => t,
                Err(e) => {
                    proof {
                        assert(vars::has_key(self@.recipes, nv[i as int]));
                        assert(crate::from_targets(
                            self@.recipes,
                            targets.deep_view(),
                            nv[i as int],
                        ));
                        if let Error::RecipeNotFound(n) = &e {
                            assert(n@ == nv[i as int]);
                            assert(false);
                        }
                    }
                    return Err(e);
                },
            };
            ts.push(t);
            proof {
                assert(ts.deep_view() =~= pre.push(ts.deep_view()[i as int]));
                assert(ts.deep_view()[i as int].name == nv[i as int]);
                assert(spec_task_names(ts.deep_view()) =~= nv.take(i as int + 1));
            }
            i += 1;
        }
        proof {
            assert(nv.take(i as int) =~= nv);
            assert(spec_task_names(ts.deep_view()) == nv);
            assert forall|j: int| 0 <= j < ts.deep_view().len() implies crate::from_targets(
                self@.recipes,
                targets.deep_view(),
                (#[trigger] ts.deep_view()[j]).name,
            ) by {
                assert(ts.deep_view()[j].name == spec_task_names(ts.deep_view())[j]);
                assert(crate::from_targets(self@.recipes, targets.deep_view(), nv[j]));
            }
        }
        Ok(ts)
    }

    /// Describe one recipe: its help text, its requirements, and the
    /// task it resolves to, with the same errors as building the task.
    pub fn explain(&self, name: &String, env: &VarMap) -> (r: Result<Explanation, Error>)
        requires
            self.wf(),
        ensures
            match r {
                Ok(ex) => vars::has_key(self@.recipes, name@) && ex.name@ == name@ && ex.help@
                    == recipe::spec_recipe_base(
                    recipe::spec_recipe_of(self@.recipes, name@),
                ).help && ex.deps.deep_view() == recipe::reqs_of(self@.recipes, name@)
                    && spec_build_task(self@, name@, env@) == Ok::<SpecTask, Error>(ex.task@),
                Err(e) => match e {
                    Error::RecipeNotFound(n) => n@ == name@ && !vars::has_key(self@.recipes, name@),
                    Error::NotExecutable(n) => n@ == name@ && vars::has_key(self@.recipes, name@)
                        && recipe::spec_recipe_of(self@.recipes, name@) is Module,
                    _ => false,
                },
            },
    {
        let rec = match self.recipes.get(name.as_str()) {
            Some(rec) => rec,
            None => {
                return Err(Error::RecipeNotFound(name.clone()));
            },
        };
        let base = rec.base();
        let help = base.help.clone();
        let deps = util::clone_strings(&base.requires);
        let task = match self.build_task(name, env) {
            Ok(t) => t,
            Err(e) => {
                return Err(e);
            },
        };
        Ok(Explanation { name: name.clone(), help: help, deps: deps, task: task })
    }

    /// List every recipe with its help text and its requirements, in
    /// namespace order.
    pub fn list_recipes(&self) -> (r: Vec<(String, String, Vec<String>)>)
        ensures
            r.deep_view().len() == self@.recipes.len(),
            forall|i: int|
                0 <= i < self@.recipes.len() ==> (#[trigger] r.deep_view()[i]).0
                    == self@.recipes[i].0 && r.deep_view()[i].1 == recipe::spec_recipe_base(
                    self@.recipes[i].1,
                ).help && r.deep_view()[i].2 == recipe::spec_recipe_base(
                    self@.recipes[i].1,
                ).requires,
    {
        let mut out: Vec<(String, String, Vec<String>)> = Vec::new();
        let mut i: usize = 0;
        while i < self.recipes.len()
            invariant
                0 <= i <= self@.recipes.len(),
                out.deep_view().len() == i,
                forall|j: int|
                    0 <= j < i ==> (#[trigger] out.deep_view()[j]).0 == self@.recipes[j].0
                        && out.deep_view()[j].1 == recipe::spec_recipe_base(
                        self@.recipes[j].1,
                    ).help && out.deep_view()[j].2 == recipe::spec_recipe_base(
                        self@.recipes[j].1,
                    ).requires,
            decreases self@.recipes.len() - i,
        {
            let ghost pre = out.deep_view();
            let name = self.recipes.name_at(i).clone();
            let rec = self.recipes.recipe_at(i);
            let help = rec.base().help.clone();
            let deps = util::clone_strings(&rec.base().requires);
            out.push((name, help, deps));
            proof {
                assert(out.deep_view() =~= pre.push(out.deep_view()[i as int]));
            }
            i += 1;
        }
        out
    }

    /// The recipes whose names carry `prefix`, each with its help text
    /// and its requirements, in namespace order: what a module
    /// reference shows instead of producing a task.
    pub fn list_recipes_under(&self, prefix: &str) -> (r: Vec<(String, String, Vec<String>)>)
        ensures
            r.deep_view() == spec_listing_under(self@.recipes, prefix@),
    {
        let ghost rs = self@.recipes;
        let mut out: Vec<(String, String, Vec<String>)> = Vec::new();
        let mut i: usize = 0;
        proof {
            assert(rs.skip(0) =~= rs);
            assert(out.deep_view() + spec_listing_under(rs, prefix@) =~= spec_listing_under(
                rs,
                prefix@,
            ));
        }
        while i < self.recipes.len()
            invariant
                0 <= i <= rs.len(),
                rs == self@.recipes,
                out.deep_view() + spec_listing_under(rs.skip(i as int), prefix@)
                    == spec_listing_under(rs, prefix@),
            decreases rs.len() - i,
        {
            proof {
                assert(rs.skip(i as int)[0] == rs[i as int]);
                assert(rs.skip(i as int).skip(1) =~= rs.skip(i as int + 1));
            }
            let ghost pre = out.deep_view();
            let name = self.recipes.name_at(i);
            if str_has_prefix(name.as_str(), prefix) {
                let rec = self.recipes.recipe_at(i);
                let entry = (
                    name.clone(),
                    rec.base().help.clone(),
                    util::clone_strings(&rec.base().requires),
                );
                out.push(entry);
                proof {
                    let sv = (
                        rs[i as int].0,
                        recipe::spec_recipe_base(rs[i as int].1).help,
                        recipe::spec_recipe_base(rs[i as int].1).requires,
                    );
                    assert(out.deep_view() =~= pre.push(sv));
                    assert((pre + seq![sv]) + spec_listing_under(rs.skip(i as int + 1), prefix@)
                        =~= pre + (seq![sv] + spec_listing_under(rs.skip(i as int + 1), prefix@)));
                    assert(pre.push(sv) =~= pre + seq![sv]);
                }
            }
            i += 1;
        }
        proof {
            assert(spec_listing_under(rs.skip(i as int), prefix@).len() == 0);
            assert(out.deep_view() + spec_listing_under(rs.skip(i as int), prefix@)
                =~= out.deep_view());
        }
        out
    }

    /// The merged top-level variables, each expanded in declaration
    /// order against the entries before it and the environment
    /// provider, ready to be rendered as shell exports.
    pub fn sh_vars(&self, env: &VarMap) -> (r: VarMap)
        requires
            self.wf(),
        ensures
            r.wf(),
            r@ == spec_expand_vars(Seq::empty(), self@.vars, env@),
    {
        expand_all_vars(&self.vars, env)
    }

    /// The cache folder of every included remote, in the order the
    /// remotes were reached; cache maintenance walks these.
    pub fn remote_paths(&self) -> (r: Vec<String>)
        ensures
            r.deep_view().len() == self@.remotes.len(),
            forall|i: int|
                0 <= i < self@.remotes.len() ==> #[trigger] r.deep_view()[i] == self@.mold_dir
                    + "/"@ + remote::spec_folder_name(self@.remotes[i]),
    {
        let mut out: Vec<String> = Vec::new();
        let mut i: usize = 0;
        while i < self.remotes.len()
            invariant
                0 <= i <= self@.remotes.len(),
                self@.remotes.len() == self.remotes@.len(),
                out.deep_view().len() == i,
                forall|j: int|
                    0 <= j < i ==> #[trigger] out.deep_view()[j] == self@.mold_dir + "/"@
                        + remote::spec_folder_name(self@.remotes[j]),
            decreases self@.remotes.len() - i,
        {
            let ghost pre = out.deep_view();
            let p = self.remotes[i].path(self.mold_dir.as_str());
            out.push(p);
            proof {
                assert(out.deep_view() =~= pre.push(out.deep_view()[i as int]));
                assert(self@.remotes[i as int] == self.remotes@[i as int]@);
            }
            i += 1;
        }
        out
    }
}

} // verus!
