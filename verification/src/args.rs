//! The command line: the parameter paths to read, the program to execute
//! with its arguments, and whether to start from a clean environment.
use vstd::prelude::*;

use crate::text::chars_of;

verus! {

broadcast use vstd::string::group_string_axioms;

/// The arguments of a run.
#[derive(Debug, PartialEq, Eq)]
pub struct Args {
    pub paths: Vec<String>,
    pub program: String,
    pub program_args: Vec<String>,
    pub clean_env: bool,
}

/// Whether `p` is a parameter path: it starts with `'/'`.
pub open spec fn is_parameter_path(p: Seq<char>) -> bool {
    p.len() > 0 && p[0] == '/'
}

/// The message for a parameter path that does not start with `'/'`.
pub open spec fn path_error_message() -> Seq<char> {
    "The parameter must start with a '/'"@
}

/// Accepts a parameter path: it must start with `'/'`.
pub fn parse_path(p: &str) -> (res: Result<String, String>)
    ensures
        is_parameter_path(p@) <==> res is Ok,
        res is Ok ==> res->Ok_0@ == p@,
        res is Err ==> res->Err_0@ == path_error_message(),
{
    let cs = chars_of(p);
    if cs.len() > 0 && cs[0] == '/' {
        Ok(p.to_string())
    } else {
        Err("The parameter must start with a '/'".to_string())
    }
}

impl Args {
    /// The arguments made of the parameter paths, the program followed by
    /// its arguments, and the clean-environment flag.
    pub fn from_values(paths: Vec<String>, program_and_args: Vec<String>, clean_env: bool) -> (res:
        Args)
        requires
            program_and_args.len() > 0,
        ensures
            res.paths == paths,
            res.program == program_and_args[0],
            res.program_args@ == program_and_args@.skip(1),
            res.clean_env == clean_env,
    {
        let mut rest = program_and_args;
        let program = rest.remove(0);
        Args { paths, program, program_args: rest, clean_env }
    }
}

/// Every path that starts with `'/'` is accepted, `"/"` itself among them;
/// the empty path and every path that starts with another character are
/// refused.
pub proof fn law_paths_start_with_slash(rest: Seq<char>, p: Seq<char>)
    ensures
        is_parameter_path(seq!['/'] + rest),
        p.len() == 0 ==> !is_parameter_path(p),
        p.len() > 0 && p[0] != '/' ==> !is_parameter_path(p),
{
    assert((seq!['/'] + rest)[0] == '/');
}

} // verus!
