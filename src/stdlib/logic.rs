use vstd::prelude::*;

use crate::eval::{eval_v, eval_within, outcome, Builtin, EnvState, Environment, Fault};
use crate::json::{views, JObject, Val};
use crate::stdlib::{bad_arity, bad_arity_value, truthy, truthy_v};

verus! {

/// What `if` does: evaluates the predicate, then only the branch that it selects.
pub open spec fn if_v(st: EnvState, args: Seq<Val>, d: nat) -> (EnvState, Result<Val, Fault>)
    decreases d, 1int,
{
    if args.len() != 3 {
        (st, Ok(bad_arity(args.len(), 3)))
    } else {
        let (st1, r) = eval_v(st, args[0], d);
        match r {
            Err(f) => (st1, Err(f)),
            Ok(p) => eval_v(
                st1,
                if truthy_v(p) {
                    args[1]
                } else {
                    args[2]
                },
                d,
            ),
        }
    }
}

/// The arguments from index `i` on, evaluated until one counts as true.
pub open spec fn or_from(st: EnvState, args: Seq<Val>, i: int, d: nat) -> (
    EnvState,
    Result<Val, Fault>,
)
    decreases d, args.len() - i + 1,
{
    if 0 <= i < args.len() {
        let (st1, r) = eval_v(st, args[i], d);
        match r {
            Err(f) => (st1, Err(f)),
            Ok(x) => if truthy_v(x) {
                (st1, Ok(Val::Bool(true)))
            } else {
                or_from(st1, args, i + 1, d)
            },
        }
    } else {
        (st, Ok(Val::Bool(false)))
    }
}

/// `if`: evaluates the predicate, then only the branch that it selects.
pub fn branch(env: &mut Environment, args: &Vec<JObject>, depth: u64) -> (r: Result<
    JObject,
    Fault,
>)
    ensures
        (final(env)@, outcome(r)) == if_v(old(env)@, views(args@), depth as nat),
    decreases depth, 1int,
{
    if args.len() != 3 {
        return Ok(bad_arity_value(args.len(), 3));
    }
    match eval_within(env, &args[0], depth) {
        Err(f) => Err(f),
        Ok(p) => {
            if truthy(&p) {
                eval_within(env, &args[1], depth)
            } else {
                eval_within(env, &args[2], depth)
            }
        },
    }
}

/// `or`: `true` as soon as an evaluated argument counts as true, else `false`.
pub fn or(env: &mut Environment, args: &Vec<JObject>, depth: u64) -> (r: Result<JObject, Fault>)
    ensures
        (final(env)@, outcome(r)) == or_from(old(env)@, views(args@), 0, depth as nat),
    decreases depth, 1int,
{
    let ghost av = views(args@);
    let mut i: usize = 0;
    while i < args.len()
        invariant
            i <= args.len(),
            av == views(args@),
            or_from(old(env)@, av, 0, depth as nat) == or_from(env@, av, i as int, depth as nat),
        decreases args.len() - i,
    {
        match eval_within(env, &args[i], depth) {
            Err(f) => {
                return Err(f);
            },
            Ok(x) => {
                if truthy(&x) {
                    return Ok(JObject::Bool(true));
                }
            },
        }
        i += 1;
    }
    Ok(JObject::Bool(false))
}

/// The environment after loading `if` and `or`.
pub open spec fn logic_module(st: EnvState) -> EnvState {
    st.register("if"@, Builtin::If).register("or"@, Builtin::Or)
}

/// Loads `if` and `or`.
pub fn load_mod(env: &mut Environment)
    ensures
        final(env)@ == logic_module(old(env)@),
{
    env.insert_builtin("if", Builtin::If);
    env.insert_builtin("or", Builtin::Or);
}

} // verus!
