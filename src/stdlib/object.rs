use vstd::prelude::*;

use crate::eval::{
    assoc_get, assoc_set, eval_args, eval_seq_from, outcome, put_entry, Builtin, EnvState,
    Environment, Fault,
};
use crate::json::{entries_view, group_view_lemmas, views, JObject, Val};
use crate::stdlib::{bad_arity, bad_arity_value};
use crate::text::{number_text, push_number, string_of};

verus! {

/// Whether `m` is a map with an entry for the string `k`.
pub open spec fn has_key(m: Val, k: Val) -> bool {
    match (m, k) {
        (Val::Object(e), Val::Str(s)) => assoc_get(e, s) is Some,
        _ => false,
    }
}

/// The map `m` with key `k` (a string, or a number in decimal) set to `v`;
/// `Null` when `m` is not a map or `k` neither.
pub open spec fn with_entry(m: Val, k: Val, v: Val) -> Val {
    match (m, k) {
        (Val::Object(e), Val::Str(s)) => Val::Object(assoc_set(e, s, v)),
        (Val::Object(e), Val::Number(n)) => Val::Object(assoc_set(e, number_text(n), v)),
        _ => Val::Null,
    }
}

/// What `contains-key` gives: whether the evaluated map has the evaluated key.
pub open spec fn contains_key_v(st: EnvState, args: Seq<Val>, d: nat) -> (
    EnvState,
    Result<Val, Fault>,
)
    decreases d, 0int,
{
    if args.len() != 2 {
        (st, Ok(bad_arity(args.len(), 2)))
    } else if d == 0 {
        (st, Err(Fault::TooDeep))
    } else {
        let (st1, r) = eval_seq_from(st, args, 0, (d - 1) as nat);
        match r {
            Err(f) => (st1, Err(f)),
            Ok(vs) => (st1, Ok(Val::Bool(has_key(vs[0], vs[1])))),
        }
    }
}

/// What `insert` gives: the evaluated map with the evaluated key set to the evaluated value.
pub open spec fn insert_v(st: EnvState, args: Seq<Val>, d: nat) -> (EnvState, Result<Val, Fault>)
    decreases d, 0int,
{
    if args.len() != 3 {
        (st, Ok(bad_arity(args.len(), 3)))
    } else if d == 0 {
        (st, Err(Fault::TooDeep))
    } else {
        let (st1, r) = eval_seq_from(st, args, 0, (d - 1) as nat);
        match r {
            Err(f) => (st1, Err(f)),
            Ok(vs) => (st1, Ok(with_entry(vs[0], vs[1], vs[2]))),
        }
    }
}

/// Whether `m` has an entry with key `k`.
fn has_entry(m: &Vec<(String, JObject)>, k: &String) -> (r: bool)
    ensures
        r == (assoc_get(entries_view(m@), k@) is Some),
{
    let ghost es = entries_view(m@);
    let mut i: usize = 0;
    while i < m.len()
        invariant
            i <= m.len(),
            es == entries_view(m@),
            forall|j: int| 0 <= j < i ==> (#[trigger] m@[j]).0@ != k@,
        decreases m.len() - i,
    {
        if m[i].0.eq(k) {
            assert(crate::eval::key_at(es, k@, i as int));
            return true;
        }
        i += 1;
    }
    false
}

/// A copy of the entries of `m`.
fn copy_entries(m: &Vec<(String, JObject)>) -> (r: Vec<(String, JObject)>)
    ensures
        entries_view(r@) == entries_view(m@),
{
    let mut out: Vec<(String, JObject)> = Vec::new();
    let mut i: usize = 0;
    while i < m.len()
        invariant
            i <= m.len(),
            out@.len() == i,
            forall|j: int|
                0 <= j < i ==> (#[trigger] out@[j]).0@ == m@[j].0@ && out@[j].1.view()
                    == m@[j].1.view(),
        decreases m.len() - i,
    {
        out.push((m[i].0.clone(), m[i].1.copy()));
        i += 1;
    }
    assert(entries_view(out@) =~= entries_view(m@));
    out
}

/// `m` with key `k` set to `v`.
fn set_entry(m: &Vec<(String, JObject)>, k: String, v: JObject) -> (r: Vec<(String, JObject)>)
    ensures
        entries_view(r@) == assoc_set(entries_view(m@), k@, v.view()),
{
    let mut out = copy_entries(m);
    put_entry(&mut out, k, v);
    out
}

/// `contains-key`: whether its evaluated first argument, a map, has its
/// evaluated second argument as a key.
pub fn contains_key(env: &mut Environment, args: &Vec<JObject>, depth: u64) -> (r: Result<
    JObject,
    Fault,
>)
    ensures
        (final(env)@, outcome(r)) == contains_key_v(old(env)@, views(args@), depth as nat),
    decreases depth, 0int,
{
    broadcast use group_view_lemmas;

    if args.len() != 2 {
        return Ok(bad_arity_value(args.len(), 2));
    }
    if depth == 0 {
        return Err(Fault::TooDeep);
    }
    let vs = match eval_args(env, args, depth - 1) {
        Err(f) => {
            return Err(f);
        },
        Ok(vs) => vs,
    };
    match (&vs[0], &vs[1]) {
        (JObject::Object(m), JObject::String(k)) => Ok(JObject::Bool(has_entry(m, k))),
        _ => Ok(JObject::Bool(false)),
    }
}

/// `insert`: its evaluated first argument, a map, with the evaluated second
/// argument set to the evaluated third.
pub fn insert(env: &mut Environment, args: &Vec<JObject>, depth: u64) -> (r: Result<
    JObject,
    Fault,
>)
    ensures
        (final(env)@, outcome(r)) == insert_v(old(env)@, views(args@), depth as nat),
    decreases depth, 0int,
{
    broadcast use group_view_lemmas;

    if args.len() != 3 {
        return Ok(bad_arity_value(args.len(), 3));
    }
    if depth == 0 {
        return Err(Fault::TooDeep);
    }
    let vs = match eval_args(env, args, depth - 1) {
        Err(f) => {
            return Err(f);
        },
        Ok(vs) => vs,
    };
    match (&vs[0], &vs[1]) {
        (JObject::Object(m), JObject::String(k)) => Ok(
            JObject::Object(set_entry(m, k.clone(), vs[2].copy())),
        ),
        (JObject::Object(m), JObject::Number(n)) => {
            let mut digits: Vec<char> = Vec::new();
            push_number(&mut digits, *n);
            assert(digits@ =~= number_text(*n));
            let k = string_of(digits.as_slice());
            Ok(JObject::Object(set_entry(m, k, vs[2].copy())))
        },
        _ => Ok(JObject::Null),
    }
}

/// The environment after loading `contains-key` and `insert`.
pub open spec fn object_module(st: EnvState) -> EnvState {
    st.register("contains-key"@, Builtin::ContainsKey).register("insert"@, Builtin::Insert)
}

/// Loads `contains-key` and `insert`.
pub fn load_mod(env: &mut Environment)
    ensures
        final(env)@ == object_module(old(env)@),
{
    env.insert_builtin("contains-key", Builtin::ContainsKey);
    env.insert_builtin("insert", Builtin::Insert);
}

} // verus!
