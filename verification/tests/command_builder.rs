use std::collections::HashMap;

use parameter_store_executor::command_builder::CommandBuilder;
use parameter_store_executor::env_map::EnvMap;

fn map_of(values: &[(&str, &str)]) -> HashMap<String, String> {
    values.iter().map(|(k, v)| (k.to_string(), v.to_string())).collect()
}

fn as_hash_map(env: EnvMap) -> HashMap<String, String> {
    env.into_entries().into_iter().collect()
}

#[test]
fn program() {
    let cmd = CommandBuilder::new(&["prg"]).invocation();

    assert_eq!(cmd.program, "prg");
}

#[test]
fn program_with_args() {
    let cmd = CommandBuilder::new(&["prg", "arg1", "arg2"]).invocation();

    assert_eq!(cmd.args, vec!("arg1", "arg2"));
}

#[test]
fn command_builder_empty() {
    let cmd = CommandBuilder::new(&["env"]).invocation();

    assert_eq!(as_hash_map(cmd.envs), map_of(&vec!()));
}

#[test]
fn command_builder_with_params() {
    let cmd = CommandBuilder::new(&["env"])
        .with_params(&vec![("user-name", "user"), ("password", "pass")])
        .invocation();

    assert_eq!(
        as_hash_map(cmd.envs),
        map_of(&vec!(("USER_NAME", "user"), ("PASSWORD", "pass"),))
    );
}

#[test]
fn command_builder_with_nested_params() {
    let cmd = CommandBuilder::new(&["env"])
        .with_params(&vec![
            ("a/nested/parameter", "nested"),
            ("not-nested", "not-nested"),
        ])
        .invocation();

    assert_eq!(
        as_hash_map(cmd.envs),
        map_of(&vec!(
            ("A_NESTED_PARAMETER", "nested"),
            ("NOT_NESTED", "not-nested"),
        ))
    );
}

#[test]
fn multiple_param_sets_are_merged() {
    let cmd = CommandBuilder::new(&["env"])
        .with_params(&[("user-name", "user"), ("password", "pass")])
        .with_params(&[("merged", "value1")])
        .invocation();

    assert_eq!(
        as_hash_map(cmd.envs),
        map_of(&vec!(
            ("USER_NAME", "user"),
            ("PASSWORD", "pass"),
            ("MERGED", "value1"),
        ))
    );
}

#[test]
fn overlapping_param_sets_uses_last_value() {
    let cmd = CommandBuilder::new(&["env"])
        .with_params(&[("user-name", "user"), ("password", "pass")])
        .with_params(&[("password", "override")])
        .invocation();

    assert_eq!(
        as_hash_map(cmd.envs),
        map_of(&vec!(("USER_NAME", "user"), ("PASSWORD", "override"),))
    );
}

#[test]
fn with_env() {
    let cmd = CommandBuilder::new(&["env"])
        .with_env_vars(&[("ENV1", "one"), ("ENV2", "two")])
        .invocation();

    assert_eq!(
        as_hash_map(cmd.envs),
        map_of(&vec!(("ENV1", "one"), ("ENV2", "two"),))
    );
}

#[test]
fn env_takes_precedence_over_params() {
    let cmd = CommandBuilder::new(&["env"])
        .with_env_vars(&[("PASSWORD", "from-env")])
        .with_params(&[("user-name", "user"), ("password", "pass")])
        .invocation();

    assert_eq!(
        as_hash_map(cmd.envs),
        map_of(&vec!(("USER_NAME", "user"), ("PASSWORD", "from-env"),))
    );
}

#[test]
fn env_vars_accumulate() {
    let cmd = CommandBuilder::new(&["env"])
        .with_env_vars(&[("ONE", "1")])
        .with_env_vars(&[("TWO", "2"), ("ONE", "again")])
        .invocation();

    assert_eq!(
        as_hash_map(cmd.envs),
        map_of(&[("ONE", "again"), ("TWO", "2")])
    );
}

#[test]
fn params_use_the_unicode_upper_case_mapping() {
    let cmd = CommandBuilder::new(&["env"])
        .with_params(&[("straße", "street")])
        .invocation();

    assert_eq!(as_hash_map(cmd.envs), map_of(&[("STRASSE", "street")]));
}

#[test]
fn program_len_counts_program_and_arguments() {
    assert_eq!(CommandBuilder::new(&["prg", "a"]).program_len(), 2);
    assert_eq!(CommandBuilder::new(&[]).program_len(), 0);
}
