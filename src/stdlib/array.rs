use vstd::prelude::*;

use crate::eval::{
    eval_args, eval_seq_from, eval_v, eval_within, outcome, prefixed, Builtin, EnvState,
    Environment, Fault,
};
use crate::json::{group_view_lemmas, views, JObject, Val};
use crate::stdlib::{bad_arity, bad_arity_value};

verus! {

/// The first element of a list (`Null` when it is empty); an empty list for anything else.
pub open spec fn first_of(x: Val) -> Val {
    match x {
        Val::List(l) => if l.len() > 0 {
            l[0]
        } else {
            Val::Null
        },
        _ => Val::List(Seq::empty()),
    }
}

/// A list without its first element; an empty list for the empty list and
/// for anything that is not a list.
pub open spec fn rest_of(x: Val) -> Val {
    match x {
        Val::List(l) => if l.len() == 0 {
            Val::List(Seq::empty())
        } else {
            Val::List(l.drop_first())
        },
        _ => Val::List(Seq::empty()),
    }
}

/// The number of elements of a list; 1 for anything else.
pub open spec fn length_of(x: Val) -> Val {
    match x {
        Val::List(l) => Val::Number(l.len() as i64),
        _ => Val::Number(1),
    }
}

/// What `head` gives: the first element of its evaluated argument.
pub open spec fn head_v(st: EnvState, args: Seq<Val>, d: nat) -> (EnvState, Result<Val, Fault>)
    decreases d, 1int,
{
    if args.len() != 1 {
        (st, Ok(bad_arity(args.len(), 1)))
    } else {
        let (st1, r) = eval_v(st, args[0], d);
        match r {
            Err(f) => (st1, Err(f)),
            Ok(x) => (st1, Ok(first_of(x))),
        }
    }
}

/// What `tail` gives: its evaluated argument without the first element.
pub open spec fn tail_v(st: EnvState, args: Seq<Val>, d: nat) -> (EnvState, Result<Val, Fault>)
    decreases d, 1int,
{
    if args.len() != 1 {
        (st, Ok(bad_arity(args.len(), 1)))
    } else {
        let (st1, r) = eval_v(st, args[0], d);
        match r {
            Err(f) => (st1, Err(f)),
            Ok(x) => (st1, Ok(rest_of(x))),
        }
    }
}

/// What `len` gives: the number of elements of its evaluated argument.
pub open spec fn len_v(st: EnvState, args: Seq<Val>, d: nat) -> (EnvState, Result<Val, Fault>)
    decreases d, 1int,
{
    if args.len() != 1 {
        (st, Ok(bad_arity(args.len(), 1)))
    } else {
        let (st1, r) = eval_v(st, args[0], d);
        match r {
            Err(f) => (st1, Err(f)),
            Ok(x) => (st1, Ok(length_of(x))),
        }
    }
}

/// What `map` gives: its evaluated first argument applied to each element of the second.
pub open spec fn map_v(st: EnvState, args: Seq<Val>, d: nat) -> (EnvState, Result<Val, Fault>)
    decreases d, 0int,
{
    if args.len() != 2 {
        (st, Ok(bad_arity(args.len(), 2)))
    } else if d == 0 {
        (st, Err(Fault::TooDeep))
    } else {
        let e = (d - 1) as nat;
        let (st1, r) = eval_seq_from(st, args, 0, e);
        match r {
            Err(f) => (st1, Err(f)),
            Ok(vs) => match vs[1] {
                Val::List(l) => crate::stdlib::as_list(map_from(st1, vs[0], l, 0, e)),
                _ => (st1, Ok(Val::Null)),
            },
        }
    }
}

/// `[f, l[j]]` evaluated for each `j` from `i` on, in order.
pub open spec fn map_from(st: EnvState, f: Val, l: Seq<Val>, i: int, d: nat) -> (
    EnvState,
    Result<Seq<Val>, Fault>,
)
    decreases d, l.len() - i + 1,
{
    if 0 <= i < l.len() {
        let (st1, r) = eval_v(st, Val::List(seq![f, l[i]]), d);
        match r {
            Err(e) => (st1, Err(e)),
            Ok(x) => prefixed(seq![x], map_from(st1, f, l, i + 1, d)),
        }
    } else {
        (st, Ok(Seq::empty()))
    }
}

/// `head`: the first element of its evaluated argument.
pub fn head(env: &mut Environment, args: &Vec<JObject>, depth: u64) -> (r: Result<JObject, Fault>)
    ensures
        (final(env)@, outcome(r)) == head_v(old(env)@, views(args@), depth as nat),
    decreases depth, 1int,
{
    broadcast use group_view_lemmas;

    if args.len() != 1 {
        return Ok(bad_arity_value(args.len(), 1));
    }
    match eval_within(env, &args[0], depth) {
        Err(f) => Err(f),
        Ok(JObject::List(l)) => {
            if l.len() > 0 {
                Ok(l[0].copy())
            } else {
                Ok(JObject::Null)
            }
        },
        Ok(_) => {
            let empty: Vec<JObject> = Vec::new();
            assert(views(empty@) =~= Seq::empty());
            Ok(JObject::List(empty))
        },
    }
}

/// `tail`: its evaluated argument without the first element.
pub fn tail(env: &mut Environment, args: &Vec<JObject>, depth: u64) -> (r: Result<JObject, Fault>)
    ensures
        (final(env)@, outcome(r)) == tail_v(old(env)@, views(args@), depth as nat),
    decreases depth, 1int,
{
    broadcast use group_view_lemmas;

    if args.len() != 1 {
        return Ok(bad_arity_value(args.len(), 1));
    }
    match eval_within(env, &args[0], depth) {
        Err(f) => Err(f),
        Ok(JObject::List(l)) => {
            if l.len() == 0 {
                assert(views(l@) =~= Seq::empty());
                Ok(JObject::List(l))
            } else {
                let rest = crate::json::copy_from(&l, 1);
                assert(views(l@).subrange(1, l@.len() as int) =~= views(l@).drop_first());
                Ok(JObject::List(rest))
            }
        },
        Ok(_) => {
            let empty: Vec<JObject> = Vec::new();
            assert(views(empty@) =~= Seq::empty());
            Ok(JObject::List(empty))
        },
    }
}

/// `len`: the number of elements of its evaluated argument.
pub fn len(env: &mut Environment, args: &Vec<JObject>, depth: u64) -> (r: Result<JObject, Fault>)
    ensures
        (final(env)@, outcome(r)) == len_v(old(env)@, views(args@), depth as nat),
    decreases depth, 1int,
{
    broadcast use group_view_lemmas;

    if args.len() != 1 {
        return Ok(bad_arity_value(args.len(), 1));
    }
    match eval_within(env, &args[0], depth) {
        Err(f) => Err(f),
        Ok(JObject::List(l)) => Ok(JObject::Number(l.len() as i64)),
        Ok(_) => Ok(JObject::Number(1)),
    }
}

/// `map`: its evaluated first argument applied to each element of its evaluated second.
pub fn map_list(env: &mut Environment, args: &Vec<JObject>, depth: u64) -> (r: Result<
    JObject,
    Fault,
>)
    ensures
        (final(env)@, outcome(r)) == map_v(old(env)@, views(args@), depth as nat),
    decreases depth, 0int,
{
    broadcast use group_view_lemmas;

    if args.len() != 2 {
        return Ok(bad_arity_value(args.len(), 2));
    }
    if depth == 0 {
        return Err(Fault::TooDeep);
    }
    let e = depth - 1;
    let vs = match eval_args(env, args, e) {
        Err(f) => {
            return Err(f);
        },
        Ok(vs) => vs,
    };
    let ghost st1 = env@;
    let func = &vs[0];
    match &vs[1] {
        JObject::List(l) => {
            proof {
                crate::json::lemma_list_view(*l);
            }
            let ghost lv = views(l@);
            assert(map_v(old(env)@, views(args@), depth as nat) == crate::stdlib::as_list(
                map_from(st1, func.view(), lv, 0, e as nat),
            ));
            let mut done: Vec<JObject> = Vec::new();
            let mut i: usize = 0;
            while i < l.len()
                invariant
                    i <= l.len(),
                    e == depth - 1,
                    lv == views(l@),
                    map_v(old(env)@, views(args@), depth as nat) == crate::stdlib::as_list(
                        map_from(st1, func.view(), lv, 0, e as nat),
                    ),
                    map_from(st1, func.view(), lv, 0, e as nat) == prefixed(
                        views(done@),
                        map_from(env@, func.view(), lv, i as int, e as nat),
                    ),
                decreases l.len() - i,
            {
                let items = vec![func.copy(), l[i].copy()];
                assert(views(items@) =~= seq![func.view(), lv[i as int]]);
                proof {
                    crate::json::lemma_list_view(items);
                }
                let call = JObject::List(items);
                assert(call.view() == Val::List(seq![func.view(), lv[i as int]]));
                let x = eval_within(env, &call, e);
                match x {
                    Err(f) => {
                        return Err(f);
                    },
                    Ok(v) => {
                        let ghost acc = views(done@);
                        done.push(v);
                        proof {
                            assert(views(done@) =~= acc + seq![v.view()]);
                            crate::eval::lemma_prefixed_twice(
                                acc,
                                seq![v.view()],
                                map_from(env@, func.view(), lv, i + 1, e as nat),
                            );
                        }
                        i += 1;
                    },
                }
            }
            assert(views(done@) + Seq::<Val>::empty() =~= views(done@));
            Ok(JObject::List(done))
        },
        _ => Ok(JObject::Null),
    }
}

/// The environment after loading `head`, `tail`, `len` and `map`.
pub open spec fn array_module(st: EnvState) -> EnvState {
    st.register("head"@, Builtin::Head).register("tail"@, Builtin::Tail).register(
        "len"@,
        Builtin::Len,
    ).register("map"@, Builtin::MapList)
}

/// Loads `head`, `tail`, `len` and `map`.
pub fn load_mod(env: &mut Environment)
    ensures
        final(env)@ == array_module(old(env)@),
{
    env.insert_builtin("head", Builtin::Head);
    env.insert_builtin("tail", Builtin::Tail);
    env.insert_builtin("len", Builtin::Len);
    env.insert_builtin("map", Builtin::MapList);
}

} // verus!
