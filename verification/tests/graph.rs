use mold::recipe::{Command, Module, Moldfile, Recipe, RecipeBase, RecipeSet, Shell};
use mold::remote::Remote;
use mold::vars::VarMap;
use mold::{Error, Mold};

const TOOL: &str = "0.5.0";

fn base(help: &str, requires: &[&str]) -> RecipeBase {
    RecipeBase {
        help: help.to_string(),
        variables: VarMap::new(),
        conditional: Vec::new(),
        work_dir: None,
        requires: requires.iter().map(|s| s.to_string()).collect(),
        search_dir: None,
        mod_path: Vec::new(),
    }
}

fn command(help: &str, requires: &[&str], argv: &[&str]) -> Recipe {
    Recipe::Command(Command {
        base: base(help, requires),
        command: argv.iter().map(|s| s.to_string()).collect(),
    })
}

fn moldfile(recipes: Vec<(&str, Recipe)>) -> Moldfile {
    let mut set = RecipeSet::new();
    for (name, rec) in recipes {
        set.insert_absent(name.to_string(), rec);
    }
    Moldfile {
        version: "*".to_string(),
        includes: Vec::new(),
        recipes: set,
        variables: VarMap::new(),
        conditional: Vec::new(),
        work_dir: None,
    }
}

fn fresh_mold() -> Mold {
    Mold::init("/proj".to_string(), "/proj/.mold".to_string(), Vec::new())
}

#[test]
fn remote_reference_round_trips() {
    let r = Remote {
        url: "host/repo.git".to_string(),
        ref_: "dev".to_string(),
        file: Some("x.yaml".to_string()),
    };
    let back = Remote::parse(&r.to_string());
    assert_eq!(back.url, "host/repo.git");
    assert_eq!(back.ref_, "dev");
    assert_eq!(back.file.as_deref(), Some("x.yaml"));
}

#[test]
fn remote_parse_defaults() {
    let r = Remote::parse("https://foo.com/mold.git");
    assert_eq!(r.url, "https://foo.com/mold.git");
    assert_eq!(r.ref_, "master");
    assert!(r.file.is_none());

    let r = Remote::parse("https://foo.com/mold.git#dev");
    assert_eq!(r.ref_, "dev");
    assert!(r.file.is_none());

    let r = Remote::parse("https://foo.com/mold.git#/dev.yaml");
    assert_eq!(r.ref_, "master");
    assert_eq!(r.file.as_deref(), Some("dev.yaml"));
}

#[test]
fn cache_folder_carries_slug_and_ref() {
    let r = Remote {
        url: "example.com/org/repo.git".to_string(),
        ref_: "dev".to_string(),
        file: None,
    };
    let p = r.path("/cache");
    assert!(p.starts_with("/cache/repo.git-dev-"), "unexpected path {p}");
}

#[test]
fn same_identity_same_folder() {
    let a = Remote {
        url: "host/x.git".to_string(),
        ref_: "main".to_string(),
        file: Some("a.yaml".to_string()),
    };
    let b = Remote {
        url: "host/x.git".to_string(),
        ref_: "main".to_string(),
        file: None,
    };
    assert_eq!(a.path("/c"), b.path("/c"));
}

#[test]
fn namespace_prefixing_rewrites_requires() {
    let mut m = fresh_mold();
    let child = moldfile(vec![("build", command("", &["lint"], &["make"]))]);
    m.merge_moldfile(child, "mod/", "/src/mod", TOOL).unwrap();
    let listing = m.list_recipes();
    assert_eq!(listing.len(), 1);
    assert_eq!(listing[0].0, "mod/build");
    assert_eq!(listing[0].2, vec!["mod/lint".to_string()]);
}

#[test]
fn parent_definition_survives_merge() {
    let mut m = fresh_mold();
    let parent = moldfile(vec![("test", command("parent's", &[], &["true"]))]);
    let child = moldfile(vec![("test", command("child's", &[], &["false"]))]);
    m.merge_moldfile(parent, "", "/src", TOOL).unwrap();
    m.merge_moldfile(child, "", "/src/child", TOOL).unwrap();
    let listing = m.list_recipes();
    assert_eq!(listing.len(), 1);
    assert_eq!(listing[0].1, "parent's");
}

#[test]
fn version_mismatch_refuses_the_file() {
    let mut m = fresh_mold();
    let mut data = moldfile(vec![]);
    data.version = ">=9.9".to_string();
    assert!(matches!(
        m.merge_moldfile(data, "", "/src", TOOL),
        Err(Error::VersionMismatch)
    ));
    let mut data = moldfile(vec![]);
    data.version = "not a version req !!".to_string();
    assert!(matches!(
        m.merge_moldfile(data, "", "/src", TOOL),
        Err(Error::VersionMismatch)
    ));
}

#[test]
fn satisfied_version_requirement_is_accepted() {
    let mut m = fresh_mold();
    let mut data = moldfile(vec![]);
    data.version = ">=0.4".to_string();
    assert!(m.merge_moldfile(data, "", "/src", TOOL).is_ok());
}

#[test]
fn include_fetched_at_most_once() {
    let mut m = fresh_mold();
    let a = Remote {
        url: "host/x.git".to_string(),
        ref_: "main".to_string(),
        file: None,
    };
    let b = Remote {
        url: "host/x.git".to_string(),
        ref_: "main".to_string(),
        file: Some("other.yaml".to_string()),
    };
    assert!(m.plan_include(&a, false));
    assert!(!m.plan_include(&b, false));
    assert!(!m.plan_include(&a, false));
}

#[test]
fn include_on_disk_is_not_fetched() {
    let mut m = fresh_mold();
    let a = Remote {
        url: "host/y.git".to_string(),
        ref_: "main".to_string(),
        file: None,
    };
    assert!(!m.plan_include(&a, true));
}

#[test]
fn resolve_orders_requirements_first() {
    let mut m = fresh_mold();
    let data = moldfile(vec![
        ("A", command("", &["B"], &["touch", "a"])),
        ("B", command("", &[], &["echo", "hi"])),
    ]);
    m.merge_moldfile(data, "", "/src", TOOL).unwrap();
    let tasks = m.resolve(&vec!["A".to_string()], &VarMap::new()).unwrap();
    assert_eq!(tasks.len(), 2);
    assert_eq!(tasks[0].name, "B");
    assert_eq!(tasks[1].name, "A");
    assert_eq!(tasks[0].args, vec!["echo".to_string(), "hi".to_string()]);
    // only the synthesized reserved variables and the globals are present
    assert_eq!(tasks[0].vars.get("MOLD_ROOT").unwrap().as_str(), "/proj");
    assert_eq!(
        tasks[0].vars.get("MOLD_DIR").unwrap().as_str(),
        "/proj/.mold"
    );
    assert_eq!(tasks[0].vars.get("MOLD_SOURCE").unwrap().as_str(), "/src");
    assert_eq!(tasks[0].vars.get("MOLD_SEARCH").unwrap().as_str(), "/src");
    assert_eq!(tasks[0].vars.get("MOLD_WORK").unwrap().as_str(), "/proj");
    assert_eq!(tasks[0].vars.len(), 5);
}

#[test]
fn missing_recipe_is_reported_by_name() {
    let m = fresh_mold();
    match m.find_all_dependencies(&vec!["ghost".to_string()]) {
        Err(Error::RecipeNotFound(n)) => assert_eq!(n, "ghost"),
        other => panic!("unexpected result: {other:?}"),
    }
}

#[test]
fn dependency_cycle_is_refused() {
    let mut m = fresh_mold();
    let data = moldfile(vec![
        ("A", command("", &["B"], &["true"])),
        ("B", command("", &["A"], &["true"])),
    ]);
    m.merge_moldfile(data, "", "/src", TOOL).unwrap();
    assert!(matches!(
        m.find_all_dependencies(&vec!["A".to_string()]),
        Err(Error::CyclicDependency(_))
    ));
}

#[test]
fn resolution_holds_only_the_targets_closure() {
    let mut m = fresh_mold();
    let data = moldfile(vec![
        ("A", command("", &["B"], &["true"])),
        ("B", command("", &[], &["true"])),
        ("unrelated", command("", &[], &["true"])),
    ]);
    m.merge_moldfile(data, "", "/src", TOOL).unwrap();
    let order = m.find_all_dependencies(&vec!["A".to_string()]).unwrap();
    assert_eq!(order, vec!["B".to_string(), "A".to_string()]);
}

#[test]
fn unrelated_cycle_does_not_block_resolution() {
    let mut m = fresh_mold();
    let data = moldfile(vec![
        ("A", command("", &[], &["true"])),
        ("loop1", command("", &["loop2"], &["true"])),
        ("loop2", command("", &["loop1"], &["true"])),
    ]);
    m.merge_moldfile(data, "", "/src", TOOL).unwrap();
    let order = m.find_all_dependencies(&vec!["A".to_string()]).unwrap();
    assert_eq!(order, vec!["A".to_string()]);
}

#[test]
fn shared_requirement_listed_once() {
    let mut m = fresh_mold();
    let data = moldfile(vec![
        ("A", command("", &["C"], &["true"])),
        ("B", command("", &["C"], &["true"])),
        ("C", command("", &[], &["true"])),
    ]);
    m.merge_moldfile(data, "", "/src", TOOL).unwrap();
    let order = m
        .find_all_dependencies(&vec!["A".to_string(), "B".to_string()])
        .unwrap();
    assert_eq!(order, vec!["C".to_string(), "A".to_string(), "B".to_string()]);
}

#[test]
fn module_reference_is_not_executable() {
    let mut m = fresh_mold();
    let mut set = RecipeSet::new();
    set.insert_absent(
        "lib".to_string(),
        Recipe::Module(Module {
            base: base("an external collection", &[]),
            remote: Remote {
                url: "host/lib.git".to_string(),
                ref_: "master".to_string(),
                file: None,
            },
        }),
    );
    let data = Moldfile {
        version: "*".to_string(),
        includes: Vec::new(),
        recipes: set,
        variables: VarMap::new(),
        conditional: Vec::new(),
        work_dir: None,
    };
    m.merge_moldfile(data, "", "/src", TOOL).unwrap();
    match m.build_task(&"lib".to_string(), &VarMap::new()) {
        Err(Error::NotExecutable(n)) => assert_eq!(n, "lib"),
        other => panic!("unexpected result: {other:?}"),
    }
}

#[test]
fn shell_recipe_runs_through_the_shell() {
    let mut m = fresh_mold();
    let mut set = RecipeSet::new();
    set.insert_absent(
        "greet".to_string(),
        Recipe::Shell(Shell {
            base: base("", &[]),
            shell: "echo $MOLD_ROOT".to_string(),
            script: None,
        }),
    );
    let data = Moldfile {
        version: "*".to_string(),
        includes: Vec::new(),
        recipes: set,
        variables: VarMap::new(),
        conditional: Vec::new(),
        work_dir: None,
    };
    m.merge_moldfile(data, "", "/src", TOOL).unwrap();
    let t = m.build_task(&"greet".to_string(), &VarMap::new()).unwrap();
    assert_eq!(t.args.len(), 3);
    assert_eq!(t.args[0], "sh");
    assert_eq!(t.args[1], "-c");
    assert_eq!(t.args[2], "echo /proj");
}

#[test]
fn inline_script_path_is_content_hashed() {
    let mut m = fresh_mold();
    let mut set = RecipeSet::new();
    set.insert_absent(
        "scripted".to_string(),
        Recipe::Shell(Shell {
            base: base("", &[]),
            shell: "sh $MOLD_SCRIPT".to_string(),
            script: Some("echo one\necho two\n".to_string()),
        }),
    );
    let data = Moldfile {
        version: "*".to_string(),
        includes: Vec::new(),
        recipes: set,
        variables: VarMap::new(),
        conditional: Vec::new(),
        work_dir: None,
    };
    m.merge_moldfile(data, "", "/src", TOOL).unwrap();
    let t1 = m.build_task(&"scripted".to_string(), &VarMap::new()).unwrap();
    let t2 = m.build_task(&"scripted".to_string(), &VarMap::new()).unwrap();
    let (p1, body) = t1.script.clone().unwrap();
    let (p2, _) = t2.script.clone().unwrap();
    assert_eq!(p1, p2);
    assert!(p1.starts_with("/proj/.mold/script-"));
    assert_eq!(body, "echo one\necho two\n");
    assert_eq!(t1.args[2], format!("sh {p1}"));
}

#[test]
fn work_dir_override_joins_the_root() {
    let mut m = fresh_mold();
    let mut rec = command("", &[], &["true"]);
    if let Recipe::Command(c) = &mut rec {
        c.base.work_dir = Some("sub/dir".to_string());
    }
    let data = moldfile(vec![("T", rec)]);
    m.merge_moldfile(data, "", "/src", TOOL).unwrap();
    let t = m.build_task(&"T".to_string(), &VarMap::new()).unwrap();
    assert_eq!(t.work_dir.as_deref(), Some("/proj/sub/dir"));
    assert_eq!(t.vars.get("MOLD_WORK").unwrap().as_str(), "/proj/sub/dir");
}

#[test]
fn global_variables_expand_in_order() {
    let mut m = fresh_mold();
    let mut data = moldfile(vec![("T", command("", &[], &["true"]))]);
    data.variables.insert("A".to_string(), "x".to_string());
    data.variables.insert("B".to_string(), "${A}y".to_string());
    m.merge_moldfile(data, "", "/src", TOOL).unwrap();
    let t = m.build_task(&"T".to_string(), &VarMap::new()).unwrap();
    assert_eq!(t.vars.get("B").unwrap().as_str(), "xy");
}

#[test]
fn explain_reports_help_and_requirements() {
    let mut m = fresh_mold();
    let data = moldfile(vec![
        ("A", command("does a thing", &["B"], &["true"])),
        ("B", command("", &[], &["true"])),
    ]);
    m.merge_moldfile(data, "", "/src", TOOL).unwrap();
    let ex = m.explain(&"A".to_string(), &VarMap::new()).unwrap();
    assert_eq!(ex.name, "A");
    assert_eq!(ex.help, "does a thing");
    assert_eq!(ex.deps, vec!["B".to_string()]);
    assert_eq!(ex.task.args, vec!["true".to_string()]);
}

#[test]
fn listing_under_a_prefix_shows_a_module_contents() {
    let mut m = fresh_mold();
    let child = moldfile(vec![
        ("build", command("builds", &[], &["make"])),
        ("lint", command("lints", &[], &["make", "lint"])),
    ]);
    m.merge_moldfile(child, "lib/", "/src/lib", TOOL).unwrap();
    let own = moldfile(vec![("top", command("", &[], &["true"]))]);
    m.merge_moldfile(own, "", "/src", TOOL).unwrap();
    let listing = m.list_recipes_under("lib/");
    assert_eq!(listing.len(), 2);
    assert_eq!(listing[0].0, "lib/build");
    assert_eq!(listing[1].0, "lib/lint");
    assert_eq!(listing[1].1, "lints");
}

#[test]
fn remote_paths_list_every_include() {
    let mut m = fresh_mold();
    let a = Remote {
        url: "host/x.git".to_string(),
        ref_: "main".to_string(),
        file: None,
    };
    m.plan_include(&a, false);
    let paths = m.remote_paths();
    assert_eq!(paths.len(), 1);
    assert_eq!(paths[0], a.path("/proj/.mold"));
}
