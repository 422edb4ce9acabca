use vstd::prelude::*;

use crate::eval::{eval_v, eval_within, outcome, Builtin, EnvState, Environment, Fault};
use crate::json::{views, JObject, Val};
use crate::text::text;

verus! {

/// The arguments from index `i` on, each evaluated and its printed form
/// written as a line of output.
pub open spec fn println_from(st: EnvState, args: Seq<Val>, i: int, d: nat) -> (
    EnvState,
    Result<Val, Fault>,
)
    decreases d, args.len() - i + 1,
{
    if 0 <= i < args.len() {
        let (st1, r) = eval_v(st, args[i], d);
        match r {
            Err(f) => (st1, Err(f)),
            Ok(x) => println_from(st1.report(text(x)), args, i + 1, d),
        }
    } else {
        (st, Ok(Val::Null))
    }
}

/// `println`: writes the printed form of each evaluated argument as a line.
pub fn print_lines(env: &mut Environment, args: &Vec<JObject>, depth: u64) -> (r: Result<
    JObject,
    Fault,
>)
    ensures
        (final(env)@, outcome(r)) == println_from(old(env)@, views(args@), 0, depth as nat),
    decreases depth, 1int,
{
    let ghost av = views(args@);
    let mut i: usize = 0;
    while i < args.len()
        invariant
            i <= args.len(),
            av == views(args@),
            println_from(old(env)@, av, 0, depth as nat) == println_from(
                env@,
                av,
                i as int,
                depth as nat,
            ),
        decreases args.len() - i,
    {
        match eval_within(env, &args[i], depth) {
            Err(f) => {
                return Err(f);
            },
            Ok(x) => {
                env.report(x.to_text());
            },
        }
        i += 1;
    }
    Ok(JObject::Null)
}

/// The environment after loading `println`.
pub open spec fn io_module(st: EnvState) -> EnvState {
    st.register("println"@, Builtin::Println)
}

/// Loads `println`.
pub fn load_mod(env: &mut Environment)
    ensures
        final(env)@ == io_module(old(env)@),
{
    env.insert_builtin("println", Builtin::Println);
}

} // verus!
