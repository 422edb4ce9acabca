use vstd::prelude::*;

use crate::eval::{apply_v, eval_v, lemma_get_set, Builtin, EnvState, MAX_DEPTH};
use crate::eval::{assoc_set, entries_from, key_at, lemma_first_key};
use crate::json::{unique_keys, well_formed, Val};
use crate::reader::{
    close_list, close_map, lemma_ws_end, open_map, p_entries, p_items, p_string, p_value, read_v,
    ws_end, ReadError,
};
use crate::stdlib::object::with_entry;
use crate::stdlib::{bad_arity, builtin_v};

verus! {

/// `Null`, booleans and numbers evaluate to themselves and leave the
/// environment as it was.
pub proof fn lemma_atoms_evaluate_to_themselves(st: EnvState, v: Val)
    requires
        v is Null || v is Bool || v is Number,
    ensures
        eval_v(st, v, MAX_DEPTH as nat) == (st, Ok::<Val, crate::eval::Fault>(v)),
{
}

/// A string that names no symbol evaluates to itself.
pub proof fn lemma_unbound_string_is_literal(st: EnvState, s: Seq<char>)
    requires
        st.lookup(s) is None,
    ensures
        eval_v(st, Val::Str(s), MAX_DEPTH as nat) == (st, Ok::<Val, crate::eval::Fault>(Val::Str(s))),
{
}

/// After `["def", "x", 5]` is evaluated, `"x"` evaluates to 5.
pub proof fn lemma_def_then_lookup(st: EnvState)
    requires
        st.lookup("def"@) is None,
        st.builtin("def"@) == Some(Builtin::Def),
    ensures
        ({
            let (st1, r) = eval_v(
                st,
                Val::List(seq![Val::Str("def"@), Val::Str("x"@), Val::Number(5)]),
                MAX_DEPTH as nat,
            );
            &&& r == Ok::<Val, crate::eval::Fault>(Val::Number(5))
            &&& eval_v(st1, Val::Str("x"@), MAX_DEPTH as nat) == (st1, Ok::<Val, crate::eval::Fault>(Val::Number(5)))
        }),
{
    let form = seq![Val::Str("def"@), Val::Str("x"@), Val::Number(5)];
    let args = form.drop_first();
    assert(args =~= seq![Val::Str("x"@), Val::Number(5)]);
    let d = MAX_DEPTH as nat;
    assert(eval_v(st, Val::List(form), d) == apply_v(st, Val::Str("def"@), args, (d - 1) as nat));
    assert(apply_v(st, Val::Str("def"@), args, (d - 1) as nat) == builtin_v(st, Builtin::Def, args, (d - 2) as nat));
    assert(eval_v(st, Val::Number(5), (d - 3) as nat) == (st, Ok::<Val, crate::eval::Fault>(Val::Number(5))));
    let st1 = st.define("x"@, Val::Number(5));
    assert(builtin_v(st, Builtin::Def, args, (d - 2) as nat) == (st1, Ok::<Val, crate::eval::Fault>(Val::Number(5))));
    lemma_get_set(st.symbols, "x"@, Val::Number(5));
    assert(st1.lookup("x"@) == Some(Val::Number(5)));
    assert(eval_v(st1, Val::Number(5), (d - 1) as nat) == (st1, Ok::<Val, crate::eval::Fault>(Val::Number(5))));
}

/// `head`, `tail` and `len` given any number of arguments but one give the
/// soft error `["error", "bad-arity", "<n> != 1"]` and change nothing.
pub proof fn lemma_array_wrong_arity(st: EnvState, b: Builtin, args: Seq<Val>, d: nat)
    requires
        b == Builtin::Head || b == Builtin::Tail || b == Builtin::Len,
        args.len() != 1,
        d > 0,
    ensures
        builtin_v(st, b, args, d) == (st, Ok::<Val, crate::eval::Fault>(bad_arity(args.len(), 1))),
{
}

/// Setting a key of a map with each key once, to a well-formed value, keeps
/// each key once and every value well-formed.
pub proof fn lemma_set_keeps_well_formed(s: Seq<(Seq<char>, Val)>, k: Seq<char>, v: Val)
    requires
        unique_keys(s),
        forall|x: int| 0 <= x < s.len() ==> well_formed(#[trigger] s[x].1),
        well_formed(v),
    ensures
        unique_keys(assoc_set(s, k, v)),
        forall|x: int|
            0 <= x < assoc_set(s, k, v).len() ==> well_formed(#[trigger] assoc_set(s, k, v)[x].1),
{
    let r = assoc_set(s, k, v);
    if exists|i: int| key_at(s, k, i) {
        let c = choose|i: int| key_at(s, k, i);
        assert(r == s.update(c, (k, v)));
        assert forall|a: int, b: int| 0 <= a < b < r.len() implies r[a].0 != r[b].0 by {
            if a == c {
                assert(s[b].0 != s[c].0);
            } else if b == c {
                assert(s[a].0 != s[c].0);
            }
        }
    } else {
        assert forall|x: int| 0 <= x < s.len() implies s[x].0 != k by {
            if s[x].0 == k {
                lemma_first_key(s, k, x);
            }
        }
        assert(r == s.push((k, v)));
    }
}

/// `insert` into a well-formed map, of a well-formed value, gives a well-formed map.
pub proof fn lemma_insert_keeps_well_formed(m: Val, k: Val, v: Val)
    requires
        well_formed(m),
        well_formed(v),
    ensures
        well_formed(with_entry(m, k, v)),
{
    match (m, k) {
        (Val::Object(e), Val::Str(s)) => {
            lemma_set_keeps_well_formed(e, s, v);
        },
        (Val::Object(e), Val::Number(n)) => {
            lemma_set_keeps_well_formed(e, crate::text::number_text(n), v);
        },
        _ => {},
    }
}

/// Evaluating the entries of a map from index `i` on keeps their keys, in order.
pub proof fn lemma_entries_keep_keys(
    st: crate::eval::EnvState,
    m: Seq<(Seq<char>, Val)>,
    i: int,
    d: nat,
)
    requires
        0 <= i <= m.len(),
    ensures
        entries_from(st, m, i, d).1 is Ok ==> {
            let n = entries_from(st, m, i, d).1->Ok_0;
            &&& n.len() == m.len() - i
            &&& forall|x: int| 0 <= x < n.len() ==> #[trigger] n[x].0 == m[i + x].0
        },
    decreases m.len() - i,
{
    if i < m.len() {
        let (st1, r) = eval_v(st, m[i].1, d);
        if r is Ok {
            lemma_entries_keep_keys(st1, m, i + 1, d);
            let rest = entries_from(st1, m, i + 1, d).1;
            if rest is Ok {
                let n = entries_from(st, m, i, d).1->Ok_0;
                assert forall|x: int| 0 <= x < n.len() implies #[trigger] n[x].0 == m[i + x].0 by {
                    if x > 0 {
                        assert(n[x] == rest->Ok_0[x - 1]);
                    }
                }
            }
        }
    }
}

/// Evaluating a map whose keys are unique gives a map with the same keys.
pub proof fn lemma_eval_map_keeps_keys(st: crate::eval::EnvState, m: Seq<(Seq<char>, Val)>, d: nat)
    requires
        unique_keys(m),
        eval_v(st, Val::Object(m), d).1 is Ok,
    ensures
        eval_v(st, Val::Object(m), d).1->Ok_0 is Object,
        unique_keys(eval_v(st, Val::Object(m), d).1->Ok_0->Object_0),
{
    lemma_entries_keep_keys(st, m, 0, (d - 1) as nat);
    let n = eval_v(st, Val::Object(m), d).1->Ok_0->Object_0;
    assert forall|a: int, b: int| 0 <= a < b < n.len() implies n[a].0 != n[b].0 by {
        assert(n[a].0 == m[0 + a].0);
        assert(n[b].0 == m[0 + b].0);
    }
}

/// Whether a parse step, where it gave a value, gave a well-formed one.
pub open spec fn gives_well_formed(r: Result<(int, Option<Val>), ReadError>) -> bool {
    r is Ok && r->Ok_0.1 is Some ==> well_formed(r->Ok_0.1->Some_0)
}

proof fn lemma_value_well_formed(t: Seq<char>, i: int)
    ensures
        gives_well_formed(p_value(t, i)),
    decreases t.len() - i, 0int,
{
    let j = ws_end(t, i);
    lemma_ws_end(t, i);
    if 0 <= i <= j < t.len() && t[j] == '[' {
        lemma_items_well_formed(t, j + 1, Seq::empty());
    }
    if 0 <= i <= j < t.len() && t[j] == '{' {
        lemma_open_map_well_formed(t, j + 1);
    }
}

proof fn lemma_open_map_well_formed(t: Seq<char>, k: int)
    ensures
        gives_well_formed(open_map(t, k)),
    decreases t.len() - k, 2int,
{
    let q = ws_end(t, k);
    if !(0 <= q < t.len() && t[q] == '}') {
        lemma_entries_well_formed(t, k, Seq::empty());
    }
}

proof fn lemma_items_well_formed(t: Seq<char>, k: int, acc: Seq<Val>)
    requires
        forall|x: int| 0 <= x < acc.len() ==> well_formed(#[trigger] acc[x]),
    ensures
        gives_well_formed(p_items(t, k, acc)),
    decreases t.len() - k, 1int,
{
    if 0 <= k <= t.len() {
        lemma_value_well_formed(t, k);
        match p_value(t, k) {
            Ok((p, Some(v))) => {
                let q = ws_end(t, p);
                let acc2 = acc.push(v);
                assert forall|x: int| 0 <= x < acc2.len() implies well_formed(#[trigger] acc2[x]) by {
                    if x < acc.len() {
                        assert(acc2[x] == acc[x]);
                    }
                }
                if k <= q < t.len() && t[q] == ',' {
                    lemma_items_well_formed(t, q + 1, acc2);
                }
            },
            _ => {},
        }
    }
}

proof fn lemma_entries_well_formed(t: Seq<char>, k: int, acc: Seq<(Seq<char>, Val)>)
    requires
        unique_keys(acc),
        forall|x: int| 0 <= x < acc.len() ==> well_formed(#[trigger] acc[x].1),
    ensures
        gives_well_formed(p_entries(t, k, acc)),
    decreases t.len() - k, 1int,
{
    let j = ws_end(t, k);
    if 0 <= k <= j < t.len() && t[j] == '"' {
        match p_string(t, j + 1) {
            Ok((p, key)) => {
                let colon_at = ws_end(t, p);
                let value_at = if 0 <= colon_at < t.len() && t[colon_at] == ':' {
                    colon_at + 1
                } else {
                    colon_at
                };
                if !(value_at <= k || value_at > t.len()) {
                    lemma_value_well_formed(t, value_at);
                    match p_value(t, value_at) {
                        Ok((q, Some(v))) => {
                            let r = ws_end(t, q);
                            lemma_set_keeps_well_formed(acc, key, v);
                            if k <= r < t.len() && t[r] == ',' {
                                lemma_entries_well_formed(t, r + 1, assoc_set(acc, key, v));
                            }
                        },
                        _ => {},
                    }
                }
            },
            Err(_) => {},
        }
    }
}

/// What reading text gives is well-formed: each map in it has each key once.
pub proof fn lemma_read_is_well_formed(t: Seq<char>)
    requires
        read_v(t) is Ok,
    ensures
        well_formed(read_v(t)->Ok_0),
{
    lemma_value_well_formed(t, 0);
}

} // verus!
