use devcontainer_env::env::{Environment, Variable, VariableVec};
use std::collections::HashMap;

fn env_from_map(map: HashMap<String, String>) -> Environment {
    Environment::from_pairs(map.into_iter().collect())
}

fn env_from_vec(lines: Vec<String>) -> Environment {
    Environment::from_lines(lines)
}

#[test]
fn environment_apply_overrides_with_runtime_value() {
    let env = env_from_map(HashMap::from([("VAR".to_string(), "default".to_string())]));
    let result = env.apply(&env_from_vec(vec!["VAR=real_value".to_string()]));
    assert_eq!(result.variables[0].value, "real_value");
}

#[test]
fn environment_apply_ignores_undeclared_keys() {
    let env = env_from_map(HashMap::from([("VAR".to_string(), "default".to_string())]));
    let result = env.apply(&env_from_vec(vec![
        "VAR=allowed".to_string(),
        "IGNORED=ignored".to_string(),
    ]));
    assert_eq!(result.variables.len(), 1);
    assert_eq!(result.variables[0].value, "allowed");
}

#[test]
fn environment_apply_keeps_default_when_key_absent() {
    let env = env_from_map(HashMap::from([("VAR".to_string(), "default".to_string())]));
    let result = env.apply(&env_from_vec(vec![]));
    assert_eq!(result.variables[0].value, "default");
}

#[test]
fn environment_from_vec_parses_key_value_pairs() {
    let env = env_from_vec(vec!["FOO=bar".to_string(), "BAZ=qux".to_string()]);
    assert_eq!(env.variables.len(), 2);
}

#[test]
fn environment_from_lines_drops_lines_without_equals() {
    let env = env_from_vec(vec![
        "NOEQUALS".to_string(),
        "A=1".to_string(),
        "B=x=y".to_string(),
        "=empty".to_string(),
    ]);
    assert_eq!(env.variables.len(), 3);
    assert_eq!(env.variables[0].key, "A");
    assert_eq!(env.variables[0].value, "1");
    assert_eq!(env.variables[1].key, "B");
    assert_eq!(env.variables[1].value, "x=y");
    assert_eq!(env.variables[2].key, "");
    assert_eq!(env.variables[2].value, "empty");
}

#[test]
fn variable_parse_splits_at_first_equals() {
    let v = Variable::from_str("URL=postgres://a?b=c").unwrap();
    assert_eq!(v.key, "URL");
    assert_eq!(v.value, "postgres://a?b=c");
    assert!(Variable::from_str("plain").is_err());
    let empty = Variable::from_str("K=").unwrap();
    assert_eq!(empty.key, "K");
    assert_eq!(empty.value, "");
}

#[test]
fn variable_displays_key_and_value() {
    let v = Variable { key: "FAKE_VAR".to_string(), value: "brown-fox".to_string() };
    assert_eq!(v.to_string(), "FAKE_VAR = brown-fox");
}

#[test]
fn environment_apply_uses_first_runtime_value() {
    let env = env_from_vec(vec!["A=default".to_string(), "B=keep".to_string()]);
    let runtime = env_from_vec(vec!["A=first".to_string(), "A=second".to_string()]);
    let result = env.apply(&runtime);
    assert_eq!(result.variables.len(), 2);
    assert_eq!(result.variables[0].key, "A");
    assert_eq!(result.variables[0].value, "first");
    assert_eq!(result.variables[1].key, "B");
    assert_eq!(result.variables[1].value, "keep");
}

#[test]
fn environment_apply_twice_is_apply_once() {
    let runtime = env_from_vec(vec!["A=runtime".to_string()]);
    let once = env_from_vec(vec!["A=x".to_string(), "C=y".to_string()]).apply(&runtime);
    let twice = env_from_vec(vec!["A=x".to_string(), "C=y".to_string()])
        .apply(&runtime)
        .apply(&runtime);
    assert_eq!(once.variables.len(), twice.variables.len());
    for (a, b) in once.variables.iter().zip(twice.variables.iter()) {
        assert_eq!(a.key, b.key);
        assert_eq!(a.value, b.value);
    }
}

#[test]
fn environment_apply_of_nothing_changes_nothing() {
    let env = env_from_vec(vec!["A=1".to_string(), "B=2".to_string()]);
    let result = env_from_vec(vec!["A=1".to_string(), "B=2".to_string()]).apply(&Environment::new());
    assert_eq!(result.variables.len(), env.variables.len());
    assert_eq!(result.variables[1].value, "2");
}

#[test]
fn environment_map_keeps_last_value_of_each_name() {
    let env = env_from_vec(vec![
        "A=1".to_string(),
        "B=2".to_string(),
        "A=3".to_string(),
    ]);
    let entries = env.to_map_entries();
    assert_eq!(
        entries,
        vec![("A".to_string(), "3".to_string()), ("B".to_string(), "2".to_string())]
    );
    let map: HashMap<String, String> = entries.into_iter().collect();
    assert_eq!(map.get("A").map(String::as_str), Some("3"));
}

#[test]
fn variable_vec_collapses_into_map_entries() {
    let vars = VariableVec(vec![
        Variable { key: "K".to_string(), value: "old".to_string() },
        Variable { key: "K".to_string(), value: "new".to_string() },
    ]);
    assert_eq!(vars.to_map_entries(), vec![("K".to_string(), "new".to_string())]);
}

#[test]
fn environment_get_finds_first_value() {
    let env = env_from_vec(vec!["A=1".to_string(), "A=2".to_string()]);
    assert_eq!(env.get(&"A".to_string()), Some("1".to_string()));
    assert_eq!(env.get(&"B".to_string()), None);
}
