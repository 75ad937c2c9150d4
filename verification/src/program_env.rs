//! The environment of the program to execute: parameters, overridden by the
//! environment variables passed along.
use vstd::prelude::*;

use crate::env_map::{
    has_key, insert_all, law_inserts_merge, law_last_entry_wins, law_untouched_key_kept,
    pairs_view, EnvMap,
};
use crate::parameter_store::Parameter;
use crate::text::{ascii_env_name, ascii_upper, law_program_env_name_characters, name_underscored};

verus! {

/// The entries that a list of parameters contributes: each name ASCII
/// upper-cased with `'.'`, `'-'` and `'/'` made `'_'`, with its value.
pub open spec fn param_entries(ps: Seq<Parameter>) -> Seq<(Seq<char>, Seq<char>)> {
    ps.map_values(|p: Parameter| (name_underscored(ascii_upper(p.name@)), p.value@))
}

/// Parameters collected so far, and the environment variables that take
/// precedence over them.
pub struct ProgramEnv {
    params: EnvMap,
    vars: Vec<(String, String)>,
}

impl ProgramEnv {
    /// The parameters collected so far, by variable name.
    pub closed spec fn params_map(&self) -> Map<Seq<char>, Seq<char>> {
        self.params@
    }

    /// The environment variables, in the order given.
    pub closed spec fn vars_seq(&self) -> Seq<(Seq<char>, Seq<char>)> {
        pairs_view(self.vars@)
    }

    /// The environment for the program: the parameters, with each variable
    /// set in turn on top of them.
    pub open spec fn env_spec(&self) -> Map<Seq<char>, Seq<char>> {
        insert_all(self.params_map(), self.vars_seq())
    }

    /// No parameters and no variables.
    pub fn new() -> (res: ProgramEnv)
        ensures
            res.params_map() == Map::<Seq<char>, Seq<char>>::empty(),
            res.vars_seq() == Seq::<(Seq<char>, Seq<char>)>::empty(),
    {
        ProgramEnv { params: EnvMap::new(), vars: Vec::new() }
    }

    /// Adds `params`, in order: each under its name ASCII upper-cased with
    /// `'.'`, `'-'` and `'/'` made `'_'`; a later parameter of the same name wins.
    pub fn params(&mut self, params: &[Parameter]) -> (ret: &mut ProgramEnv)
        ensures
            ret.params_map() == insert_all(old(self).params_map(), param_entries(params@)),
            ret.vars_seq() == old(self).vars_seq(),
            *final(self) == *final(ret),
    {
        let ghost start = self.params@;
        let mut i: usize = 0;
        while i < params.len()
            invariant
                i <= params@.len(),
                self.params@ == insert_all(start, param_entries(params@).take(i as int)),
                self.vars == old(self).vars,
                start == old(self).params@,
            decreases params@.len() - i,
        {
            let name = ascii_env_name(params[i].name.as_str());
            let value = params[i].value.clone();
            self.params.insert(name, value);
            proof {
                let s = param_entries(params@);
                assert(s.take(i + 1).drop_last() =~= s.take(i as int));
            }
            i = i + 1;
        }
        proof {
            assert(param_entries(params@).take(i as int) =~= param_entries(params@));
        }
        self
    }

    /// Sets the environment variables to `vars`, in place of earlier ones.
    pub fn vars(&mut self, vars: &[(String, String)]) -> (ret: &mut ProgramEnv)
        ensures
            ret.vars_seq() == pairs_view(vars@),
            ret.params_map() == old(self).params_map(),
            *final(self) == *final(ret),
    {
        let mut copy: Vec<(String, String)> = Vec::new();
        let mut i: usize = 0;
        while i < vars.len()
            invariant
                i <= vars@.len(),
                pairs_view(copy@) =~= pairs_view(vars@).take(i as int),
            decreases vars@.len() - i,
        {
            let ghost before = copy@;
            copy.push((vars[i].0.clone(), vars[i].1.clone()));
            proof {
                assert(pairs_view(copy@) =~= pairs_view(before).push(pairs_view(vars@)[i as int]));
                assert(pairs_view(vars@).take(i + 1) =~= pairs_view(vars@).take(i as int).push(
                    pairs_view(vars@)[i as int],
                ));
            }
            i = i + 1;
        }
        proof {
            assert(pairs_view(vars@).take(i as int) =~= pairs_view(vars@));
        }
        self.vars = copy;
        self
    }

    /// The environment for the program (see `env_spec`).
    pub fn to_map(&mut self) -> (res: EnvMap)
        ensures
            res@ == old(self).env_spec(),
            *final(self) == *old(self),
    {
        let mut env = self.params.duplicate();
        let mut i: usize = 0;
        while i < self.vars.len()
            invariant
                i <= self.vars@.len(),
                env@ == insert_all(self.params@, pairs_view(self.vars@).take(i as int)),
            decreases self.vars@.len() - i,
        {
            env.insert(self.vars[i].0.clone(), self.vars[i].1.clone());
            proof {
                let s = pairs_view(self.vars@);
                assert(s.take(i + 1).drop_last() =~= s.take(i as int));
            }
            i = i + 1;
        }
        proof {
            assert(pairs_view(self.vars@).take(i as int) =~= pairs_view(self.vars@));
        }
        env
    }
}

impl Default for ProgramEnv {
    /// No parameters and no variables.
    fn default() -> (res: ProgramEnv)
        ensures
            res.params_map() == Map::<Seq<char>, Seq<char>>::empty(),
            res.vars_seq() == Seq::<(Seq<char>, Seq<char>)>::empty(),
    {
        ProgramEnv::new()
    }
}

/// An environment variable decides the value of its name, over any parameter
/// of that name: the last variable given with the name wins.
pub proof fn law_env_vars_take_precedence(env: ProgramEnv, i: int)
    requires
        0 <= i < env.vars_seq().len(),
        forall|j: int| i < j < env.vars_seq().len() ==> env.vars_seq()[j].0 != env.vars_seq()[i].0,
    ensures
        env.env_spec().dom().contains(env.vars_seq()[i].0),
        env.env_spec()[env.vars_seq()[i].0] == env.vars_seq()[i].1,
{
    law_last_entry_wins(env.params_map(), env.vars_seq(), i);
}

/// A parameter whose name no environment variable has reaches the program
/// as it is, and nothing else of that name does.
pub proof fn law_parameters_pass_through(env: ProgramEnv, name: Seq<char>)
    requires
        !has_key(env.vars_seq(), name),
    ensures
        env.env_spec().dom().contains(name) == env.params_map().dom().contains(name),
        env.params_map().dom().contains(name) ==> env.env_spec()[name] == env.params_map()[name],
{
    law_untouched_key_kept(env.params_map(), env.vars_seq(), name);
}

/// Adding two sets of parameters one after the other merges them: it is the
/// same as adding their concatenation at once.
pub proof fn law_parameter_sets_merge(
    m: Map<Seq<char>, Seq<char>>,
    a: Seq<Parameter>,
    b: Seq<Parameter>,
)
    ensures
        insert_all(insert_all(m, param_entries(a)), param_entries(b)) == insert_all(
            m,
            param_entries(a + b),
        ),
{
    assert(param_entries(a + b) =~= param_entries(a) + param_entries(b));
    law_inserts_merge(m, param_entries(a), param_entries(b));
}

/// Of parameters whose names map to the same variable name, the last one
/// given decides its value.
pub proof fn law_last_parameter_wins(m: Map<Seq<char>, Seq<char>>, ps: Seq<Parameter>, i: int)
    requires
        0 <= i < ps.len(),
        forall|j: int|
            i < j < ps.len() ==> name_underscored(ascii_upper(ps[j].name@)) != name_underscored(
                ascii_upper(ps[i].name@),
            ),
    ensures
        insert_all(m, param_entries(ps)).dom().contains(name_underscored(ascii_upper(ps[i].name@))),
        insert_all(m, param_entries(ps))[name_underscored(ascii_upper(ps[i].name@))] == ps[i].value@,
{
    let s = param_entries(ps);
    assert forall|j: int| i < j < s.len() implies s[j].0 != s[i].0 by {
        assert(s[j].0 == name_underscored(ascii_upper(ps[j].name@)));
    }
    law_last_entry_wins(m, s, i);
}

/// Each parameter contributes one entry, in order: its value exactly as
/// given, under a name that keeps its characters except that `'.'`, `'-'` and
/// `'/'` become `'_'` and ASCII lower-case letters become upper-case.
pub proof fn law_parameter_entries(ps: Seq<Parameter>)
    ensures
        param_entries(ps).len() == ps.len(),
        forall|i: int| 0 <= i < ps.len() ==> (#[trigger] param_entries(ps)[i]).1 == ps[i].value@,
        forall|i: int|
            0 <= i < ps.len() ==> (#[trigger] param_entries(ps)[i]).0.len() == ps[i].name@.len(),
        forall|i: int, j: int|
            0 <= i < ps.len() && 0 <= j < ps[i].name@.len() && ps[i].name@[j] != '.'
                && ps[i].name@[j] != '-' && ps[i].name@[j] != '/' && !('a' <= ps[i].name@[j]
                <= 'z') ==> (#[trigger] param_entries(ps)[i].0[j]) == ps[i].name@[j],
        forall|i: int, j: int|
            0 <= i < ps.len() && 0 <= j < ps[i].name@.len() && (ps[i].name@[j] == '.'
                || ps[i].name@[j] == '-' || ps[i].name@[j] == '/') ==> (#[trigger] param_entries(ps)[i].0[j]) == '_',
        forall|i: int, j: int|
            0 <= i < ps.len() && 0 <= j < ps[i].name@.len() && 'a' <= ps[i].name@[j] <= 'z' ==> (
            (#[trigger] param_entries(ps)[i].0[j]) as u32) == (ps[i].name@[j] as u32) - 32,
{
    assert forall|i: int| 0 <= i < ps.len() implies #[trigger] param_entries(ps)[i] == (
    name_underscored(ascii_upper(ps[i].name@)), ps[i].value@) by {}
    assert forall|i: int| 0 <= i < ps.len() implies #[trigger] param_entries(ps)[i] == (
    name_underscored(ascii_upper(ps[i].name@)), ps[i].value@) && {
        let n = ps[i].name@;
        let r = name_underscored(ascii_upper(n));
        &&& r.len() == n.len()
        &&& forall|j: int|
            0 <= j < n.len() && n[j] != '.' && n[j] != '-' && n[j] != '/' && !('a' <= n[j] <= 'z')
                ==> #[trigger] r[j] == n[j]
        &&& forall|j: int|
            0 <= j < n.len() && (n[j] == '.' || n[j] == '-' || n[j] == '/') ==> #[trigger] r[j]
                == '_'
        &&& forall|j: int| 0 <= j < n.len() && 'a' <= n[j] <= 'z' ==> (#[trigger] r[j] as u32) == (
        n[j] as u32) - 32
    } by {
        law_program_env_name_characters(ps[i].name@);
    }
}

} // verus!
