use std::collections::HashMap;

use parameter_store_executor::args::{parse_path, Args};
use parameter_store_executor::parameter_store::parameters_from_listing;
use parameter_store_executor::program_env::ProgramEnv;

fn map(values: &[(&str, &str)]) -> HashMap<String, String> {
    values.iter().map(|(k, v)| (k.to_string(), v.to_string())).collect()
}

fn listing(values: &[(&str, &str)]) -> Result<Vec<Vec<(String, String)>>, String> {
    Ok(vec![values.iter().map(|(k, v)| (k.to_string(), v.to_string())).collect()])
}

/// The parameters that the store holds under `path`, as a recursive listing
/// at that path gives them.
fn under<'a>(all: &[(&'a str, &'a str)], path: &str) -> Vec<(&'a str, &'a str)> {
    all.iter().filter(|(n, _)| n.starts_with(path)).cloned().collect()
}

fn run(all: &[(&str, &str)], paths: &[&str], vars: &[(&str, &str)]) -> HashMap<String, String> {
    let mut env = ProgramEnv::new();
    for path in paths {
        let params = parameters_from_listing(path, listing(&under(all, path))).unwrap();
        env.params(&params);
    }
    let vars: Vec<(String, String)> =
        vars.iter().map(|(k, v)| (k.to_string(), v.to_string())).collect();
    env.vars(&vars);
    env.to_map().into_entries().into_iter().collect()
}

#[test]
fn readme_example() {
    let all = [("/one/test", "1"), ("/two/test", "2")];
    let env = run(&all, &["/", "/one", "/two"], &[]);
    assert_eq!(env, map(&[("ONE_TEST", "1"), ("TWO_TEST", "2"), ("TEST", "2")]));
}

#[test]
fn help_example_with_env_override() {
    let all = [
        ("/one/user-name", "user-1"),
        ("/one/password", "pass-1"),
        ("/two/user-name", "user-2"),
        ("/two/password", "pass-2"),
    ];
    let env = run(&all, &["/", "/one", "/two"], &[("TWO_PASSWORD", "from-env")]);
    assert_eq!(
        env,
        map(&[
            ("ONE_USER_NAME", "user-1"),
            ("ONE_PASSWORD", "pass-1"),
            ("TWO_USER_NAME", "user-2"),
            ("TWO_PASSWORD", "from-env"),
            ("USER_NAME", "user-2"),
            ("PASSWORD", "pass-2"),
        ])
    );
}

#[test]
fn paths_must_start_with_a_slash() {
    assert_eq!(parse_path("/my-app/secrets"), Ok("/my-app/secrets".to_string()));
    assert_eq!(
        parse_path("my-app"),
        Err("The parameter must start with a '/'".to_string())
    );
    assert_eq!(
        parse_path(""),
        Err("The parameter must start with a '/'".to_string())
    );
}

#[test]
fn args_from_values_complete_example() {
    let args = Args::from_values(
        vec!["/a/path".to_string(), "/another/path".to_string()],
        vec!["/path/to/a/binary".to_string(), "arg1".to_string(), "arg2".to_string()],
        true,
    );
    assert_eq!(
        args,
        Args {
            paths: vec!["/a/path", "/another/path"].into_iter().map(Into::into).collect(),
            program: "/path/to/a/binary".to_string(),
            program_args: vec!["arg1", "arg2"].into_iter().map(Into::into).collect(),
            clean_env: true,
        }
    );
}

#[test]
fn args_default_program() {
    let args = Args::from_values(vec!["/p".to_string()], vec!["env".to_string()], false);
    assert_eq!(args.program, "env");
    assert!(args.program_args.is_empty());
    assert!(!args.clean_env);
}
