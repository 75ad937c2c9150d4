//! Collects what is needed to execute a program: the program and its
//! arguments, parameters and environment variables.
use vstd::prelude::*;

use crate::env_map::{insert_all, law_inserts_merge, law_last_entry_wins, pairs_view, EnvMap};
use crate::text::{law_dash_slash_characters, underscored, unicode_upper, upper_env_name};

verus! {

broadcast use vstd::string::group_string_axioms;

/// The characters of each string.
pub open spec fn strs_view(s: Seq<&str>) -> Seq<Seq<char>> {
    s.map_values(|x: &str| x@)
}

/// The characters of each string of each pair.
pub open spec fn str_pairs_view(s: Seq<(&str, &str)>) -> Seq<(Seq<char>, Seq<char>)> {
    s.map_values(|p: (&str, &str)| (p.0@, p.1@))
}

/// The entries that parameters contribute: each name upper-cased (Unicode)
/// with `'-'` and `'/'` made `'_'`, with its value.
pub open spec fn upper_entries(s: Seq<(&str, &str)>) -> Seq<(Seq<char>, Seq<char>)> {
    s.map_values(|p: (&str, &str)| (underscored(unicode_upper(p.0@)), p.1@))
}

/// The program to execute, its arguments and its complete environment.
pub struct Invocation {
    pub program: String,
    pub args: Vec<String>,
    pub envs: EnvMap,
}

/// Collects a program with its arguments, parameters and environment
/// variables.
pub struct CommandBuilder {
    program: Vec<String>,
    params: EnvMap,
    env_vars: Vec<(String, String)>,
}

impl CommandBuilder {
    /// The program followed by its arguments.
    pub closed spec fn program_view(&self) -> Seq<Seq<char>> {
        self.program@.map_values(|s: String| s@)
    }

    /// The parameters collected so far, by variable name.
    pub closed spec fn params_map(&self) -> Map<Seq<char>, Seq<char>> {
        self.params@
    }

    /// The environment variables collected so far, in order.
    pub closed spec fn env_vars_seq(&self) -> Seq<(Seq<char>, Seq<char>)> {
        pairs_view(self.env_vars@)
    }

    /// The environment of the program: the parameters, with each variable set
    /// in turn on top of them.
    pub open spec fn env_spec(&self) -> Map<Seq<char>, Seq<char>> {
        insert_all(self.params_map(), self.env_vars_seq())
    }

    /// A builder for `program`: its first string is the program, the rest
    /// are its arguments.
    pub fn new(program: &[&str]) -> (res: CommandBuilder)
        ensures
            res.program_view() == strs_view(program@),
            res.params_map() == Map::<Seq<char>, Seq<char>>::empty(),
            res.env_vars_seq() == Seq::<(Seq<char>, Seq<char>)>::empty(),
    {
        let mut owned: Vec<String> = Vec::new();
        let mut i: usize = 0;
        while i < program.len()
            invariant
                i <= program@.len(),
                owned@.map_values(|s: String| s@) =~= strs_view(program@).take(i as int),
            decreases program@.len() - i,
        {
            let ghost before = owned@;
            owned.push(program[i].to_string());
            proof {
                assert(owned@.map_values(|s: String| s@) =~= before.map_values(|s: String| s@).push(
                    program@[i as int]@,
                ));
                assert(strs_view(program@).take(i + 1) =~= strs_view(program@).take(i as int).push(
                    program@[i as int]@,
                ));
            }
            i = i + 1;
        }
        proof {
            assert(strs_view(program@).take(i as int) =~= strs_view(program@));
        }
        CommandBuilder { program: owned, params: EnvMap::new(), env_vars: Vec::new() }
    }

    /// Adds `params`, in order: each under its name upper-cased (Unicode)
    /// with `'-'` and `'/'` made `'_'`; a later parameter of the same name
    /// wins.
    pub fn with_params(&mut self, params: &[(&str, &str)]) -> (ret: &mut CommandBuilder)
        ensures
            ret.params_map() == insert_all(old(self).params_map(), upper_entries(params@)),
            ret.program_view() == old(self).program_view(),
            ret.env_vars_seq() == old(self).env_vars_seq(),
            *final(self) == *final(ret),
    {
        let ghost start = self.params@;
        let mut i: usize = 0;
        while i < params.len()
            invariant
                i <= params@.len(),
                self.params@ == insert_all(start, upper_entries(params@).take(i as int)),
                self.program == old(self).program,
                self.env_vars == old(self).env_vars,
                start == old(self).params@,
            decreases params@.len() - i,
        {
            let (k, v) = params[i];
            let name = upper_env_name(k);
            let value = v.to_string();
            self.params.insert(name, value);
            proof {
                let s = upper_entries(params@);
                assert(s.take(i + 1).drop_last() =~= s.take(i as int));
            }
            i = i + 1;
        }
        proof {
            assert(upper_entries(params@).take(i as int) =~= upper_entries(params@));
        }
        self
    }

    /// Adds `env_vars` after the environment variables given before.
    pub fn with_env_vars(&mut self, env_vars: &[(&str, &str)]) -> (ret: &mut CommandBuilder)
        ensures
            ret.env_vars_seq() == old(self).env_vars_seq() + str_pairs_view(env_vars@),
            ret.program_view() == old(self).program_view(),
            ret.params_map() == old(self).params_map(),
            *final(self) == *final(ret),
    {
        let ghost start = pairs_view(self.env_vars@);
        let mut i: usize = 0;
        while i < env_vars.len()
            invariant
                i <= env_vars@.len(),
                pairs_view(self.env_vars@) =~= start + str_pairs_view(env_vars@).take(i as int),
                self.program == old(self).program,
                self.params == old(self).params,
                start == pairs_view(old(self).env_vars@),
            decreases env_vars@.len() - i,
        {
            let (k, v) = env_vars[i];
            let ghost before = self.env_vars@;
            self.env_vars.push((k.to_string(), v.to_string()));
            proof {
                assert(pairs_view(self.env_vars@) =~= pairs_view(before).push((k@, v@)));
                assert(str_pairs_view(env_vars@).take(i + 1) =~= str_pairs_view(env_vars@).take(
                    i as int,
                ).push((k@, v@)));
            }
            i = i + 1;
        }
        proof {
            assert(str_pairs_view(env_vars@).take(i as int) =~= str_pairs_view(env_vars@));
        }
        self
    }

    /// How many strings the program and its arguments are.
    pub fn program_len(&self) -> (res: usize)
        ensures
            res == self.program_view().len(),
    {
        self.program.len()
    }

    /// What executing the program needs: its first string as the program,
    /// the rest as its arguments, and the environment (see `env_spec`) as the
    /// whole environment.
    pub fn invocation(&self) -> (res: Invocation)
        requires
            self.program_view().len() > 0,
        ensures
            res.program@ == self.program_view()[0],
            res.args@.map_values(|s: String| s@) == self.program_view().skip(1),
            res.envs@ == self.env_spec(),
    {
        let program = self.program[0].clone();
        let mut args: Vec<String> = Vec::new();
        let mut i: usize = 1;
        while i < self.program.len()
            invariant
                1 <= i <= self.program@.len(),
                args@.map_values(|s: String| s@) =~= self.program_view().subrange(1, i as int),
            decreases self.program@.len() - i,
        {
            let ghost before = args@;
            args.push(self.program[i].clone());
            proof {
                assert(args@.map_values(|s: String| s@) =~= before.map_values(|s: String| s@).push(
                    self.program_view()[i as int],
                ));
            }
            i = i + 1;
        }
        let mut envs = self.params.duplicate();
        let mut j: usize = 0;
        while j < self.env_vars.len()
            invariant
                j <= self.env_vars@.len(),
                envs@ == insert_all(self.params@, pairs_view(self.env_vars@).take(j as int)),
            decreases self.env_vars@.len() - j,
        {
            envs.insert(self.env_vars[j].0.clone(), self.env_vars[j].1.clone());
            proof {
                let s = pairs_view(self.env_vars@);
                assert(s.take(j + 1).drop_last() =~= s.take(j as int));
            }
            j = j + 1;
        }
        proof {
            assert(pairs_view(self.env_vars@).take(j as int) =~= pairs_view(self.env_vars@));
        }
        Invocation { program, args, envs }
    }
}

/// An environment variable decides the value of its name, over any parameter
/// of that name: the last variable given with the name wins.
pub proof fn law_env_takes_precedence_over_params(b: CommandBuilder, i: int)
    requires
        0 <= i < b.env_vars_seq().len(),
        forall|j: int|
            i < j < b.env_vars_seq().len() ==> b.env_vars_seq()[j].0 != b.env_vars_seq()[i].0,
    ensures
        b.env_spec().dom().contains(b.env_vars_seq()[i].0),
        b.env_spec()[b.env_vars_seq()[i].0] == b.env_vars_seq()[i].1,
{
    law_last_entry_wins(b.params_map(), b.env_vars_seq(), i);
}

/// Adding two sets of parameters one after the other merges them: it is the
/// same as adding their concatenation at once.
pub proof fn law_builder_param_sets_merge(
    m: Map<Seq<char>, Seq<char>>,
    a: Seq<(&str, &str)>,
    b: Seq<(&str, &str)>,
)
    ensures
        insert_all(insert_all(m, upper_entries(a)), upper_entries(b)) == insert_all(
            m,
            upper_entries(a + b),
        ),
{
    assert(upper_entries(a + b) =~= upper_entries(a) + upper_entries(b));
    law_inserts_merge(m, upper_entries(a), upper_entries(b));
}

/// A new builder's program and arguments are the given strings, in order,
/// each with its characters as given.
pub proof fn law_program_as_given(program: Seq<&str>)
    ensures
        strs_view(program).len() == program.len(),
        forall|i: int| 0 <= i < program.len() ==> #[trigger] strs_view(program)[i] == program[i]@,
{
}

/// Each added parameter contributes one entry, in order: its value exactly
/// as given, under its upper-cased name (Unicode) with each `'-'` and `'/'`
/// made `'_'` and every other character kept.
pub proof fn law_parameter_values_as_given(params: Seq<(&str, &str)>)
    ensures
        upper_entries(params).len() == params.len(),
        forall|i: int|
            0 <= i < params.len() ==> (#[trigger] upper_entries(params)[i]).1 == params[i].1@,
        forall|i: int|
            0 <= i < params.len() ==> (#[trigger] upper_entries(params)[i]).0.len()
                == unicode_upper(params[i].0@).len(),
        forall|i: int, j: int|
            0 <= i < params.len() && 0 <= j < unicode_upper(params[i].0@).len() && (unicode_upper(
                params[i].0@,
            )[j] == '-' || unicode_upper(params[i].0@)[j] == '/') ==> (#[trigger] upper_entries(params)[i].0[j]) == '_',
        forall|i: int, j: int|
            0 <= i < params.len() && 0 <= j < unicode_upper(params[i].0@).len() && unicode_upper(
                params[i].0@,
            )[j] != '-' && unicode_upper(params[i].0@)[j] != '/' ==> (#[trigger] upper_entries(params)[i].0[j]) == unicode_upper(params[i].0@)[j],
{
    assert forall|i: int| 0 <= i < params.len() implies #[trigger] upper_entries(params)[i] == (
    underscored(unicode_upper(params[i].0@)), params[i].1@) && {
        let u = unicode_upper(params[i].0@);
        &&& underscored(u).len() == u.len()
        &&& forall|j: int|
            0 <= j < u.len() && (u[j] == '-' || u[j] == '/') ==> #[trigger] underscored(u)[j]
                == '_'
        &&& forall|j: int|
            0 <= j < u.len() && u[j] != '-' && u[j] != '/' ==> #[trigger] underscored(u)[j] == u[j]
    } by {
        law_dash_slash_characters(unicode_upper(params[i].0@));
    }
}

/// Adding environment variables appends the given pairs, in order, each
/// name and value with its characters as given, after the earlier ones,
/// which stay as they were.
pub proof fn law_env_vars_appended_as_given(
    earlier: Seq<(Seq<char>, Seq<char>)>,
    env_vars: Seq<(&str, &str)>,
)
    ensures
        (earlier + str_pairs_view(env_vars)).len() == earlier.len() + env_vars.len(),
        forall|i: int|
            0 <= i < earlier.len() ==> #[trigger] (earlier + str_pairs_view(env_vars))[i]
                == earlier[i],
        forall|i: int|
            0 <= i < env_vars.len() ==> #[trigger] (earlier + str_pairs_view(env_vars))[earlier.len()
                + i] == (env_vars[i].0@, env_vars[i].1@),
{
}

} // verus!
