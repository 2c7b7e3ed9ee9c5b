use mold::expr::compile;
use mold::util;
use mold::vars::{build_args, expand, VarMap};
use mold::Error;

fn names(list: &[&str]) -> Vec<String> {
    list.iter().map(|s| s.to_string()).collect()
}

fn vm(pairs: &[(&str, &str)]) -> VarMap {
    let mut m = VarMap::new();
    for (k, v) in pairs {
        m.insert(k.to_string(), v.to_string());
    }
    m
}

#[test]
fn and_needs_both_names() {
    let e = compile("a + b").unwrap();
    assert!(e.apply(&names(&["a", "b"])));
    assert!(!e.apply(&names(&["a"])));
}

#[test]
fn or_needs_one_name() {
    let e = compile("a | b").unwrap();
    assert!(e.apply(&names(&["b"])));
    assert!(!e.apply(&names(&["c"])));
}

#[test]
fn not_inverts_an_atom() {
    let e = compile("~a").unwrap();
    assert!(e.apply(&names(&[])));
    assert!(!e.apply(&names(&["a"])));
}

#[test]
fn wildcard_always_holds() {
    let e = compile("*").unwrap();
    assert!(e.apply(&names(&[])));
    assert!(e.apply(&names(&["anything", "else"])));
    let q = compile("?").unwrap();
    assert!(q.apply(&names(&[])));
}

#[test]
fn groups_bind_before_conjunction() {
    let e = compile("(a|b)+c").unwrap();
    assert!(e.apply(&names(&["a", "c"])));
    assert!(e.apply(&names(&["b", "c"])));
    assert!(!e.apply(&names(&["a"])));
}

#[test]
fn malformed_expressions_fail_to_compile() {
    assert!(matches!(compile("a +"), Err(Error::Parse)));
    assert!(matches!(compile("(a"), Err(Error::Parse)));
    assert!(matches!(compile("a b"), Err(Error::Parse)));
}

#[test]
fn whitespace_and_strays_are_dropped() {
    let e = compile("  a\t+\nb ").unwrap();
    assert!(e.apply(&names(&["a", "b"])));
    // an unrecognized character is dropped by the lexer, not an error
    let f = compile("a % + b").unwrap();
    assert!(f.apply(&names(&["a", "b"])));
    assert!(!f.apply(&names(&["a"])));
}

#[test]
fn expand_prefers_vars_then_env_then_empty() {
    let vars = vm(&[("A", "from-vars")]);
    let env = vm(&[("A", "from-env"), ("B", "env-only")]);
    assert_eq!(expand("$A", &vars, &env), "from-vars");
    assert_eq!(expand("${B}", &vars, &env), "env-only");
    assert_eq!(expand("$UNDEFINED_NAME_XYZ", &vars, &env), "");
    assert_eq!(expand("x/${A}/y", &vars, &env), "x/from-vars/y");
}

#[test]
fn expand_leaves_plain_text_alone() {
    let vars = VarMap::new();
    let env = VarMap::new();
    assert_eq!(expand("plain text", &vars, &env), "plain text");
}

#[test]
fn build_args_expands_then_splits_with_quoting() {
    let vars = vm(&[("NAME", "world")]);
    let env = VarMap::new();
    let args = build_args("echo \"hello $NAME\"", &vars, &env).unwrap();
    assert_eq!(args, vec!["echo".to_string(), "hello world".to_string()]);
}

#[test]
fn build_args_rejects_unbalanced_quoting() {
    let vars = VarMap::new();
    let env = VarMap::new();
    assert!(matches!(
        build_args("echo \"unclosed", &vars, &env),
        Err(Error::ShellSplit(_))
    ));
}

#[test]
fn var_map_insert_overwrites_in_place() {
    let mut m = vm(&[("A", "1"), ("B", "2")]);
    m.insert("A".to_string(), "3".to_string());
    assert_eq!(m.len(), 2);
    assert_eq!(m.key_at(0).as_str(), "A");
    assert_eq!(m.val_at(0).as_str(), "3");
    assert_eq!(m.get("B").unwrap().as_str(), "2");
    assert!(m.get("C").is_none());
}

#[test]
fn env_vars_overlays_in_declaration_order() {
    let base = vm(&[("X", "1")]);
    let cond = vec![
        ("a".to_string(), vm(&[("Y", "2")])),
        ("b".to_string(), vm(&[("X", "3")])),
    ];
    let active = names(&["b"]);
    let r = base.env_vars(&cond, &active);
    assert_eq!(r.get("X").unwrap().as_str(), "3");
    assert!(r.get("Y").is_none());
}

#[test]
fn malformed_conditional_is_inactive_not_fatal() {
    let base = vm(&[("X", "1")]);
    let cond = vec![("(((".to_string(), vm(&[("X", "broken")]))];
    let r = base.env_vars(&cond, &names(&["a"]));
    assert_eq!(r.get("X").unwrap().as_str(), "1");
}

#[test]
fn decimal_rendering_is_exact() {
    assert_eq!(util::dec_of(0), "0");
    assert_eq!(util::dec_of(7), "7");
    assert_eq!(util::dec_of(1234567890), "1234567890");
}

#[test]
fn digests_depend_on_url_and_ref() {
    let a = util::hash_url_ref("host/repo.git", "dev");
    let b = util::hash_url_ref("host/repo.git", "dev");
    let c = util::hash_url_ref("host/repo.git", "main");
    assert_eq!(a, b);
    assert_ne!(a, c);
}

#[test]
fn join_path_keeps_absolute_segments() {
    assert_eq!(util::join_path("/root", "sub"), "/root/sub");
    assert_eq!(util::join_path("/root", "/abs"), "/abs");
}
