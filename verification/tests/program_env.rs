use std::collections::HashMap;

use parameter_store_executor::env_map::EnvMap;
use parameter_store_executor::parameter_store::Parameter;
use parameter_store_executor::program_env::ProgramEnv;

fn params(values: &[(&str, &str)]) -> Vec<Parameter> {
    values
        .iter()
        .map(|(n, v)| Parameter { name: n.to_string(), value: v.to_string() })
        .collect()
}

fn vars(values: &[(&str, &str)]) -> Vec<(String, String)> {
    values.iter().map(|(k, v)| (k.to_string(), v.to_string())).collect()
}

fn map(values: &[(&str, &str)]) -> HashMap<String, String> {
    values.iter().map(|(k, v)| (k.to_string(), v.to_string())).collect()
}

fn as_hash_map(env: EnvMap) -> HashMap<String, String> {
    let entries = env.into_entries();
    let n = entries.len();
    let m: HashMap<String, String> = entries.into_iter().collect();
    assert_eq!(m.len(), n, "each name occurs once");
    m
}

#[test]
fn program_env_empty() {
    let env = as_hash_map(ProgramEnv::new().to_map());

    assert_eq!(env, HashMap::new());
}

#[test]
fn program_env_with_params() {
    let env = as_hash_map(
        ProgramEnv::new()
            .params(&params(&[("user-name", "user"), ("password", "pass")]))
            .to_map(),
    );

    assert_eq!(env, map(&[("USER_NAME", "user"), ("PASSWORD", "pass")]));
}

#[test]
fn program_env_with_nested_params() {
    let env = as_hash_map(
        ProgramEnv::new()
            .params(&params(&[("a/nested/parameter", "nested"), ("not-nested", "not-nested")]))
            .to_map(),
    );

    assert_eq!(
        env,
        map(&[("A_NESTED_PARAMETER", "nested"), ("NOT_NESTED", "not-nested")])
    );
}

#[test]
fn multiple_sets_of_parameters_are_merged() {
    let env = as_hash_map(
        ProgramEnv::new()
            .params(&params(&[("user-name", "user"), ("password", "pass")]))
            .params(&params(&[("merged", "value1")]))
            .to_map(),
    );

    assert_eq!(
        env,
        map(&[("USER_NAME", "user"), ("PASSWORD", "pass"), ("MERGED", "value1")])
    );
}

#[test]
fn overlapping_sets_of_parameters_uses_last_value() {
    let env = as_hash_map(
        ProgramEnv::new()
            .params(&params(&[("user-name", "user"), ("password", "pass")]))
            .params(&params(&[("password", "override")]))
            .to_map(),
    );

    assert_eq!(env, map(&[("USER_NAME", "user"), ("PASSWORD", "override")]));
}

#[test]
fn with_env_vars() {
    let env = as_hash_map(
        ProgramEnv::new()
            .vars(&vars(&[("ENV1", "one"), ("ENV2", "two")]))
            .to_map(),
    );

    assert_eq!(env, map(&[("ENV1", "one"), ("ENV2", "two")]));
}

#[test]
fn env_vars_takes_precedence_over_parameters() {
    let env = as_hash_map(
        ProgramEnv::new()
            .vars(&vars(&[("PASSWORD", "from-env")]))
            .params(&params(&[("user-name", "user"), ("password", "pass")]))
            .to_map(),
    );

    assert_eq!(env, map(&[("USER_NAME", "user"), ("PASSWORD", "from-env")]));
}

#[test]
fn vars_replace_earlier_vars() {
    let env = as_hash_map(
        ProgramEnv::new()
            .vars(&vars(&[("ENV1", "one")]))
            .vars(&vars(&[("ENV2", "two")]))
            .to_map(),
    );

    assert_eq!(env, map(&[("ENV2", "two")]));
}

#[test]
fn last_variable_of_a_name_wins() {
    let env = as_hash_map(
        ProgramEnv::new()
            .params(&params(&[("key", "param")]))
            .vars(&vars(&[("KEY", "first"), ("KEY", "second")]))
            .to_map(),
    );

    assert_eq!(env, map(&[("KEY", "second")]));
}

#[test]
fn names_mapping_to_one_variable_last_wins() {
    let env = as_hash_map(
        ProgramEnv::new()
            .params(&params(&[("a-b", "dash"), ("a/b", "slash"), ("A_b", "plain")]))
            .to_map(),
    );

    assert_eq!(env, map(&[("A_B", "plain")]));
}

#[test]
fn only_ascii_letters_are_upper_cased() {
    let env = as_hash_map(
        ProgramEnv::new()
            .params(&params(&[("straße", "street")]))
            .to_map(),
    );

    assert_eq!(env, map(&[("STRAßE", "street")]));
}

#[test]
fn to_map_leaves_the_environment_unchanged() {
    let mut env = ProgramEnv::default();
    env.params(&params(&[("one", "1")]));
    let first = as_hash_map(env.to_map());
    let second = as_hash_map(env.to_map());

    assert_eq!(first, second);
    assert_eq!(first, map(&[("ONE", "1")]));
}

#[test]
fn periods_become_underscores() {
    let env = as_hash_map(
        ProgramEnv::new()
            .params(&params(&[("db.host-name", "v")]))
            .to_map(),
    );

    assert_eq!(env, map(&[("DB_HOST_NAME", "v")]));
}
