//! The recipe data model: the closed recipe variants, their shared base
//! attributes, a name-to-recipe namespace with unique keys, and one
//! configuration unit.

use vstd::prelude::*;

use crate::remote::Remote;
use crate::remote::SpecRemote;
use crate::vars::distinct_keys;
use crate::vars::has_key;
use crate::vars::lemma_has_key_index;
use crate::vars::VarMap;

verus! {

/// Mathematical form of the attributes every recipe carries.
pub struct SpecRecipeBase {
    pub help: Seq<char>,
    pub variables: Seq<(Seq<char>, Seq<char>)>,
    pub conditional: Seq<(Seq<char>, Seq<(Seq<char>, Seq<char>)>)>,
    pub work_dir: Option<Seq<char>>,
    pub requires: Seq<Seq<char>>,
    pub search_dir: Option<Seq<char>>,
    pub mod_path: Seq<Seq<char>>,
}

/// The attributes every recipe carries.
#[derive(Debug)]
pub struct RecipeBase {
    /// A short description of the recipe's purpose.
    pub help: String,
    /// The recipe's own variables.
    pub variables: VarMap,
    /// Conditional overlays: if the test expression is satisfied by the
    /// active environment names, overlay the attached variables.
    pub conditional: Vec<(String, VarMap)>,
    /// Working-directory override, relative to the root directory.
    pub work_dir: Option<String>,
    /// Names of the recipes that must run first.
    pub requires: Vec<String>,
    /// Where relative script and file lookups for this recipe resolve,
    /// tracked separately from the execution working directory.
    pub search_dir: Option<String>,
    /// The module path that led to this recipe, for diagnostics.
    pub mod_path: Vec<String>,
}

impl View for RecipeBase {
    type V = SpecRecipeBase;

    open spec fn view(&self) -> SpecRecipeBase {
        SpecRecipeBase {
            help: self.help@,
            variables: self.variables@,
            conditional: self.conditional.deep_view(),
            work_dir: match self.work_dir {
                Some(d) => Some(d@),
                None => None,
            },
            requires: self.requires.deep_view(),
            search_dir: match self.search_dir {
                Some(d) => Some(d@),
                None => None,
            },
            mod_path: self.mod_path.deep_view(),
        }
    }
}

pub struct SpecCommand {
    pub base: SpecRecipeBase,
    pub command: Seq<Seq<char>>,
}

/// A recipe that runs one literal argument vector.
#[derive(Debug)]
pub struct Command {
    pub base: RecipeBase,
    /// The command arguments; each is expanded before execution.
    pub command: Vec<String>,
}

pub struct SpecShell {
    pub base: SpecRecipeBase,
    pub shell: Seq<char>,
    pub script: Option<Seq<char>>,
}

/// A recipe that hands a command text to a shell, optionally backed by
/// an inline script body.
#[derive(Debug)]
pub struct Shell {
    pub base: RecipeBase,
    /// The command text to pass to the shell.
    pub shell: String,
    /// An inline script body, materialized to a content-hashed file
    /// before invocation.
    pub script: Option<String>,
}

pub struct SpecModule {
    pub base: SpecRecipeBase,
    pub remote: SpecRemote,
}

/// A recipe that points at an external recipe collection.
#[derive(Debug)]
pub struct Module {
    pub base: RecipeBase,
    /// Where the collection lives.
    pub remote: Remote,
}

/// Mathematical form of a recipe.
pub enum SpecRecipe {
    Command(SpecCommand),
    Shell(SpecShell),
    Module(SpecModule),
}

/// A named unit of work: a literal command, an inline shell command, or
/// a reference to an external recipe collection.
#[derive(Debug)]
pub enum Recipe {
    Command(Command),
    Shell(Shell),
    Module(Module),
}

impl View for Recipe {
    type V = SpecRecipe;

    open spec fn view(&self) -> SpecRecipe {
        match self {
            Recipe::Command(c) => SpecRecipe::Command(
                SpecCommand { base: c.base@, command: c.command.deep_view() },
            ),
            Recipe::Shell(s) => SpecRecipe::Shell(
                SpecShell {
                    base: s.base@,
                    shell: s.shell@,
                    script: match s.script {
                        Some(t) => Some(t@),
                        None => None,
                    },
                },
            ),
            Recipe::Module(m) => SpecRecipe::Module(SpecModule { base: m.base@, remote: m.remote@ }),
        }
    }
}

impl DeepView for Recipe {
    type V = SpecRecipe;

    open spec fn deep_view(&self) -> SpecRecipe {
        self.view()
    }
}

/// The shared base of a recipe, whatever its variant.
pub open spec fn spec_recipe_base(r: SpecRecipe) -> SpecRecipeBase {
    match r {
        SpecRecipe::Command(c) => c.base,
        SpecRecipe::Shell(s) => s.base,
        SpecRecipe::Module(m) => m.base,
    }
}

/// Every name in `names` with `prefix` prepended.
pub open spec fn spec_prefix_names(names: Seq<Seq<char>>, prefix: Seq<char>) -> Seq<Seq<char>> {
    names.map_values(|n: Seq<char>| prefix + n)
}

/// The base after adoption under a prefix: every `requires` entry
/// carries the prefix, so namespace-relative references still resolve;
/// a recipe without its own search directory takes the directory of
/// the file that declared it; and a nonempty prefix joins the
/// module-path trace.
pub open spec fn spec_adopted_base(
    b: SpecRecipeBase,
    prefix: Seq<char>,
    search: Seq<char>,
) -> SpecRecipeBase {
    SpecRecipeBase {
        requires: spec_prefix_names(b.requires, prefix),
        search_dir: if b.search_dir is Some {
            b.search_dir
        } else {
            Some(search)
        },
        mod_path: if prefix.len() == 0 {
            b.mod_path
        } else {
            b.mod_path.push(prefix)
        },
        ..b
    }
}

/// The same recipe adopted under `prefix`, its search directory
/// defaulting to `search`.
pub open spec fn spec_adopted(r: SpecRecipe, prefix: Seq<char>, search: Seq<char>) -> SpecRecipe {
    match r {
        SpecRecipe::Command(c) => SpecRecipe::Command(
            SpecCommand { base: spec_adopted_base(c.base, prefix, search), command: c.command },
        ),
        SpecRecipe::Shell(s) => SpecRecipe::Shell(
            SpecShell {
                base: spec_adopted_base(s.base, prefix, search),
                shell: s.shell,
                script: s.script,
            },
        ),
        SpecRecipe::Module(m) => SpecRecipe::Module(
            SpecModule { base: spec_adopted_base(m.base, prefix, search), remote: m.remote },
        ),
    }
}

fn prefix_names(names: Vec<String>, prefix: &str) -> (r: Vec<String>)
    ensures
        r.deep_view() == spec_prefix_names(names.deep_view(), prefix@),
{
    let ghost orig = names.deep_view();
    let mut out: Vec<String> = Vec::new();
    let mut i: usize = 0;
    while i < names.len()
        invariant
            0 <= i <= names@.len(),
            names.deep_view() == orig,
            out.deep_view() =~= spec_prefix_names(orig, prefix@).take(i as int),
        decreases names@.len() - i,
    {
        let ghost pre = out.deep_view();
        out.push(prefix.to_owned().concat(names[i].as_str()));
        proof {
            assert(out.deep_view() =~= pre.push(prefix@ + orig[i as int]));
            assert(out.deep_view() =~= spec_prefix_names(orig, prefix@).take(i as int + 1));
        }
        i += 1;
    }
    proof {
        assert(spec_prefix_names(orig, prefix@).take(i as int) =~= spec_prefix_names(
            orig,
            prefix@,
        ));
    }
    out
}

fn adopt_base(b: RecipeBase, prefix: &str, search: &str) -> (r: RecipeBase)
    ensures
        r@ == spec_adopted_base(b@, prefix@, search@),
{
    let mut mod_path = b.mod_path;
    let ghost pre = mod_path.deep_view();
    if prefix.unicode_len() > 0 {
        mod_path.push(prefix.to_owned());
        proof {
            assert(mod_path.deep_view() =~= pre.push(prefix@));
        }
    }
    RecipeBase {
        requires: prefix_names(b.requires, prefix),
        search_dir: match b.search_dir {
            Some(d) => Some(d),
            None => Some(search.to_owned()),
        },
        mod_path: mod_path,
        ..b
    }
}

impl Recipe {
    /// The shared base attributes.
    pub fn base(&self) -> (b: &RecipeBase)
        ensures
            b@ == spec_recipe_base(self@),
    {
        match self {
            Recipe::Command(c) => &c.base,
            Recipe::Shell(s) => &s.base,
            Recipe::Module(m) => &m.base,
        }
    }

    /// Adopt the recipe under `prefix`: rewrite every `requires` entry
    /// to carry the prefix, and let the search directory default to
    /// `search`, the directory of the declaring file.
    pub fn adopt(self, prefix: &str, search: &str) -> (r: Recipe)
        ensures
            r@ == spec_adopted(self@, prefix@, search@),
    {
        match self {
            Recipe::Command(c) => Recipe::Command(
                Command { base: adopt_base(c.base, prefix, search), command: c.command },
            ),
            Recipe::Shell(s) => Recipe::Shell(
                Shell { base: adopt_base(s.base, prefix, search), shell: s.shell, script: s.script },
            ),
            Recipe::Module(m) => Recipe::Module(
                Module { base: adopt_base(m.base, prefix, search), remote: m.remote },
            ),
        }
    }
}

/// The recipe under the first entry for `k`.
pub open spec fn spec_recipe_of(s: Seq<(Seq<char>, SpecRecipe)>, k: Seq<char>) -> SpecRecipe
    decreases s.len(),
{
    if s.len() == 0 {
        vstd::pervasive::arbitrary()
    } else if s[0].0 == k {
        s[0].1
    } else {
        spec_recipe_of(s.skip(1), k)
    }
}

/// The requirements of the recipe under `k`.
pub open spec fn reqs_of(s: Seq<(Seq<char>, SpecRecipe)>, k: Seq<char>) -> Seq<Seq<char>> {
    spec_recipe_base(spec_recipe_of(s, k)).requires
}

/// A namespace of recipes: names unique, insertion order kept, names
/// qualified with `/` where a prefix adopted them.
#[derive(Debug)]
pub struct RecipeSet {
    entries: Vec<(String, Recipe)>,
}

impl View for RecipeSet {
    type V = Seq<(Seq<char>, SpecRecipe)>;

    closed spec fn view(&self) -> Seq<(Seq<char>, SpecRecipe)> {
        self.entries.deep_view()
    }
}

impl RecipeSet {
    /// Every name appears at most once.
    pub open spec fn wf(self) -> bool {
        distinct_keys(self@)
    }

    pub fn new() -> (m: RecipeSet)
        ensures
            m@ == Seq::<(Seq<char>, SpecRecipe)>::empty(),
            m.wf(),
    {
        let m = RecipeSet { entries: Vec::new() };
        proof {
            assert(m@ =~= Seq::<(Seq<char>, SpecRecipe)>::empty());
        }
        m
    }

    pub fn len(&self) -> (n: usize)
        ensures
            n == self@.len(),
    {
        self.entries.len()
    }

    pub fn name_at(&self, i: usize) -> (k: &String)
        requires
            i < self@.len(),
        ensures
            k@ == self@[i as int].0,
    {
        &self.entries[i].0
    }

    pub fn recipe_at(&self, i: usize) -> (r: &Recipe)
        requires
            i < self@.len(),
        ensures
            r@ == self@[i as int].1,
    {
        &self.entries[i].1
    }

    /// The position of `k` among the entries, if it is there.
    fn find(&self, k: &str) -> (r: Option<usize>)
        ensures
            match r {
                Some(i) => i < self@.len() && self@[i as int].0 == k@ && has_key(self@, k@)
                    && spec_recipe_of(self@, k@) == self@[i as int].1,
                None => !has_key(self@, k@),
            },
    {
        let ghost full = self@;
        let kk = k.to_owned();
        let mut i: usize = 0;
        proof {
            assert(full.skip(0) =~= full);
        }
        while i < self.entries.len()
            invariant
                0 <= i <= self.entries.len(),
                kk@ == k@,
                full == self@,
                self@.len() == self.entries@.len(),
                has_key(full, k@) == has_key(full.skip(i as int), k@),
                spec_recipe_of(full, k@) == spec_recipe_of(full.skip(i as int), k@),
            decreases self.entries.len() - i,
        {
            proof {
                assert(full.skip(i as int)[0] == full[i as int]);
                assert(full.skip(i as int).skip(1) =~= full.skip(i as int + 1));
            }
            assert(self@[i as int].0 == self.entries@[i as int].0@);
            let ks: &String = &self.entries[i].0;
            if ks.eq(&kk) {
                assert(self@[i as int].0 == k@);
                return Some(i);
            }
            assert(self@[i as int].0 != k@);
            i += 1;
        }
        proof {
            assert(full.skip(i as int).len() == 0);
        }
        None
    }

    /// The recipe under `k`, when there is one.
    pub fn get(&self, k: &str) -> (r: Option<&Recipe>)
        ensures
            match r {
                Some(rec) => has_key(self@, k@) && rec@ == spec_recipe_of(self@, k@),
                None => !has_key(self@, k@),
            },
    {
        match self.find(k) {
            Some(i) => Some(&self.entries[i].1),
            None => None,
        }
    }

    /// Surrender the first entry, in declaration order.
    pub fn take_first(&mut self) -> (r: Option<(String, Recipe)>)
        ensures
            match r {
                Some(p) => old(self)@.len() > 0 && p.0@ == old(self)@[0].0 && p.1@ == old(
                    self,
                )@[0].1 && final(self)@ == old(self)@.skip(1),
                None => old(self)@.len() == 0 && final(self)@ == old(self)@,
            },
    {
        if self.entries.len() == 0 {
            return None;
        }
        let p = self.entries.remove(0);
        proof {
            assert(final(self)@ =~= old(self)@.skip(1));
        }
        Some(p)
    }

    /// Adopt one entry only when the name is still free: what is
    /// present wins, the incoming recipe is skipped.
    pub fn insert_absent(&mut self, k: String, v: Recipe)
        requires
            old(self).wf(),
        ensures
            final(self).wf(),
            final(self)@ == if has_key(old(self)@, k@) {
                old(self)@
            } else {
                old(self)@.push((k@, v@))
            },
    {
        let ghost pre = self@;
        match self.find(k.as_str()) {
            Some(_) => {},
            None => {
                let ghost kv = k@;
                let ghost vv = v@;
                self.entries.push((k, v));
                proof {
                    assert(self@ =~= pre.push((kv, vv)));
                    lemma_has_key_index(pre, kv);
                    assert forall|a: int, b: int|
                        0 <= a < b < self@.len() implies self@[a].0 != self@[b].0 by {
                        if b < pre.len() {
                            assert(pre[a].0 != pre[b].0);
                        } else {
                            assert(self@[b].0 == kv);
                            assert(self@[a] == pre[a]);
                        }
                    }
                }
            },
        }
    }
}

/// Mathematical form of one include declaration.
pub struct SpecInclude {
    pub remote: SpecRemote,
    pub prefix: Seq<char>,
}

/// An external collection included for reuse, with the namespace prefix
/// its recipes are adopted under.
#[derive(Debug)]
pub struct Include {
    /// The collection to include.
    pub remote: Remote,
    /// The prefix prepended to every adopted recipe name.
    pub prefix: String,
}

impl View for Include {
    type V = SpecInclude;

    open spec fn view(&self) -> SpecInclude {
        SpecInclude { remote: self.remote@, prefix: self.prefix@ }
    }
}

impl DeepView for Include {
    type V = SpecInclude;

    open spec fn deep_view(&self) -> SpecInclude {
        self.view()
    }
}

/// Mathematical form of one configuration unit.
pub struct SpecMoldfile {
    pub version: Seq<char>,
    pub includes: Seq<SpecInclude>,
    pub recipes: Seq<(Seq<char>, SpecRecipe)>,
    pub variables: Seq<(Seq<char>, Seq<char>)>,
    pub conditional: Seq<(Seq<char>, Seq<(Seq<char>, Seq<char>)>)>,
    pub work_dir: Option<Seq<char>>,
}

/// One configuration unit, as an external parser hands it over.
#[derive(Debug)]
pub struct Moldfile {
    /// The tool version requirement this file declares.
    pub version: String,
    /// The collections this file includes, in declaration order.
    pub includes: Vec<Include>,
    /// The recipes this file declares.
    pub recipes: RecipeSet,
    /// The file's top-level variables.
    pub variables: VarMap,
    /// The file's conditional variable overlays.
    pub conditional: Vec<(String, VarMap)>,
    /// A working-directory override, propagated to the whole namespace.
    pub work_dir: Option<String>,
}

impl View for Moldfile {
    type V = SpecMoldfile;

    open spec fn view(&self) -> SpecMoldfile {
        SpecMoldfile {
            version: self.version@,
            includes: self.includes.deep_view(),
            recipes: self.recipes@,
            variables: self.variables@,
            conditional: self.conditional.deep_view(),
            work_dir: match self.work_dir {
                Some(d) => Some(d@),
                None => None,
            },
        }
    }
}

} // verus!
