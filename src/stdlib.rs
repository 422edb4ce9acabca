use vstd::prelude::*;

use crate::eval::{
    eval_args, eval_seq_from, eval_v, eval_within, outcome, same_text, Builtin, EnvState,
    Environment, Fault,
};
use crate::json::{group_view_lemmas, kind_name, names_view, views, JObject, Val};
use crate::text::{decimal, push_decimal, push_str, string_of, text};

pub mod array;
pub mod io;
pub mod logic;
pub mod object;

verus! {

/// Whether a value counts as true: all but `Null`, `false` and the empty list.
pub open spec fn truthy_v(v: Val) -> bool {
    match v {
        Val::Null => false,
        Val::Bool(b) => b,
        Val::List(l) => l.len() > 0,
        _ => true,
    }
}

/// Whether a value counts as true.
pub fn truthy(o: &JObject) -> (r: bool)
    ensures
        r == truthy_v(o.view()),
{
    broadcast use group_view_lemmas;

    match o {
        JObject::Null => false,
        JObject::Bool(b) => *b,
        JObject::List(l) => l.len() > 0,
        _ => true,
    }
}

/// The soft error for a builtin given `got` arguments where it takes `expected`.
pub open spec fn bad_arity(got: nat, expected: nat) -> Val {
    Val::List(
        seq![
            Val::Str("error"@),
            Val::Str("bad-arity"@),
            Val::Str(decimal(got) + " != "@ + decimal(expected)),
        ],
    )
}

/// The soft error for an import that names no module.
pub open spec fn bad_import() -> Val {
    Val::List(seq![Val::Str("error"@), Val::Str("bad-import"@)])
}

/// The value of an import that succeeded.
pub open spec fn ok_val() -> Val {
    Val::Str("ok"@)
}

/// The soft error for a builtin given `got` arguments where it takes `expected`.
pub fn bad_arity_value(got: usize, expected: usize) -> (r: JObject)
    ensures
        r.view() == bad_arity(got as nat, expected as nat),
{
    broadcast use group_view_lemmas;

    let mut detail: Vec<char> = Vec::new();
    push_decimal(&mut detail, got as u64);
    push_str(&mut detail, " != ");
    push_decimal(&mut detail, expected as u64);
    let items = vec![
        JObject::String("error".to_string()),
        JObject::String("bad-arity".to_string()),
        JObject::String(string_of(detail.as_slice())),
    ];
    assert(views(items@) =~= bad_arity(got as nat, expected as nat)->List_0);
    JObject::List(items)
}

/// The soft error for an import that names no module.
pub fn bad_import_value() -> (r: JObject)
    ensures
        r.view() == bad_import(),
{
    broadcast use group_view_lemmas;

    let items = vec![JObject::String("error".to_string()), JObject::String("bad-import".to_string())];
    assert(views(items@) =~= bad_import()->List_0);
    JObject::List(items)
}

/// What a builtin does with the unevaluated arguments `args`.
pub open spec fn builtin_v(st: EnvState, b: Builtin, args: Seq<Val>, d: nat) -> (
    EnvState,
    Result<Val, Fault>,
)
    decreases d, 0int,
{
    if d == 0 {
        (st, Err(Fault::TooDeep))
    } else {
        let e = (d - 1) as nat;
        match b {
            Builtin::Quote => (st, Ok(quote_v(args))),
            Builtin::Quasiquote => if args.len() != 1 {
                (st, Ok(bad_arity(args.len(), 1)))
            } else {
                quasi_v(st, args[0], e)
            },
            Builtin::Def => def_v(st, args, e),
            Builtin::F => (st, callable_v(args, false)),
            Builtin::Macro => (st, callable_v(args, true)),
            Builtin::If => logic::if_v(st, args, e),
            Builtin::Program => program_v(st, args, e),
            Builtin::Crash => (st, Err(Fault::Crash)),
            Builtin::Import => {
                let (st1, v) = import_from(st, args, 0, ok_val());
                (st1, Ok(v))
            },
            Builtin::Type => type_v(st, args, e),
            Builtin::ToText => to_text_v(st, args, e),
            Builtin::Head => array::head_v(st, args, e),
            Builtin::Tail => array::tail_v(st, args, e),
            Builtin::Len => array::len_v(st, args, e),
            Builtin::MapList => array::map_v(st, args, e),
            Builtin::ContainsKey => object::contains_key_v(st, args, e),
            Builtin::Insert => object::insert_v(st, args, e),
            Builtin::Println => io::println_from(st, args, 0, e),
            Builtin::Or => logic::or_from(st, args, 0, e),
        }
    }
}

/// Runs the builtin `b` on the unevaluated arguments `args`.
pub fn call_builtin(env: &mut Environment, b: Builtin, args: &Vec<JObject>, depth: u64) -> (r: Result<
    JObject,
    Fault,
>)
    ensures
        (final(env)@, outcome(r)) == builtin_v(old(env)@, b, views(args@), depth as nat),
    decreases depth, 0int,
{
    if depth == 0 {
        return Err(Fault::TooDeep);
    }
    let e = depth - 1;
    match b {
        Builtin::Quote => Ok(quote(args)),
        Builtin::Quasiquote => {
            if args.len() != 1 {
                Ok(bad_arity_value(args.len(), 1))
            } else {
                quasiwalk(env, &args[0], e)
            }
        },
        Builtin::Def => def(env, args, e),
        Builtin::F => callable(args, false),
        Builtin::Macro => callable(args, true),
        Builtin::If => logic::branch(env, args, e),
        Builtin::Program => program(env, args, e),
        Builtin::Crash => Err(Fault::Crash),
        Builtin::Import => Ok(import(env, args)),
        Builtin::Type => type_of(env, args, e),
        Builtin::ToText => to_text_form(env, args, e),
        Builtin::Head => array::head(env, args, e),
        Builtin::Tail => array::tail(env, args, e),
        Builtin::Len => array::len(env, args, e),
        Builtin::MapList => array::map_list(env, args, e),
        Builtin::ContainsKey => object::contains_key(env, args, e),
        Builtin::Insert => object::insert(env, args, e),
        Builtin::Println => io::print_lines(env, args, e),
        Builtin::Or => logic::or(env, args, e),
    }
}

/// What `quote` gives: its one argument, unevaluated.
pub open spec fn quote_v(args: Seq<Val>) -> Val {
    if args.len() != 1 {
        bad_arity(args.len(), 1)
    } else {
        args[0]
    }
}

/// `quote`: its one argument, unevaluated.
fn quote(args: &Vec<JObject>) -> (r: JObject)
    ensures
        r.view() == quote_v(views(args@)),
{
    if args.len() != 1 {
        bad_arity_value(args.len(), 1)
    } else {
        args[0].copy()
    }
}

/// A successful result of a sequence, as a list.
pub open spec fn as_list(p: (EnvState, Result<Seq<Val>, Fault>)) -> (EnvState, Result<Val, Fault>) {
    match p.1 {
        Ok(n) => (p.0, Ok(Val::List(n))),
        Err(f) => (p.0, Err(f)),
    }
}

/// Whether `l` is a list whose head is the name `word` and which has a second element.
pub open spec fn is_form(l: Seq<Val>, word: Seq<char>) -> bool {
    l.len() > 1 && l[0] == Val::Str(word)
}

/// The quasiquote walk of the template `t`.
pub open spec fn quasi_v(st: EnvState, t: Val, d: nat) -> (EnvState, Result<Val, Fault>)
    decreases d, 0int,
{
    if d == 0 {
        (st, Err(Fault::TooDeep))
    } else {
        let e = (d - 1) as nat;
        match t {
            Val::List(l) => if is_form(l, "unquote"@) {
                eval_v(st, l[1], e)
            } else {
                as_list(walk_from(st, l, 0, e))
            },
            _ => (st, Ok(t)),
        }
    }
}

/// The top-level elements of a template from index `i` on: a `splice-unquote`
/// form is replaced by its evaluated argument, all else is kept.
pub open spec fn walk_from(st: EnvState, l: Seq<Val>, i: int, d: nat) -> (
    EnvState,
    Result<Seq<Val>, Fault>,
)
    decreases d, l.len() - i + 1,
{
    if 0 <= i < l.len() {
        let (st1, r) = match l[i] {
            Val::List(x) => if is_form(x, "splice-unquote"@) {
                eval_v(st, x[1], d)
            } else {
                (st, Ok(l[i]))
            },
            _ => (st, Ok(l[i])),
        };
        match r {
            Err(f) => (st1, Err(f)),
            Ok(x) => crate::eval::prefixed(seq![x], walk_from(st1, l, i + 1, d)),
        }
    } else {
        (st, Ok(Seq::empty()))
    }
}

/// Whether `o` is a list whose head is the name `word` and which has a second element.
fn is_form_obj(o: &JObject, word: &str) -> (r: bool)
    ensures
        r == (o.view() is List && is_form(o.view()->List_0, word@)),
{
    broadcast use group_view_lemmas;

    match o {
        JObject::List(l) => {
            if l.len() > 1 {
                match &l[0] {
                    JObject::String(s) => same_text(s, word),
                    _ => false,
                }
            } else {
                false
            }
        },
        _ => false,
    }
}

/// Runs the quasiquote walk over the template `o`.
pub fn quasiwalk(env: &mut Environment, o: &JObject, depth: u64) -> (r: Result<JObject, Fault>)
    ensures
        (final(env)@, outcome(r)) == quasi_v(old(env)@, o.view(), depth as nat),
    decreases depth, 0int,
{
    broadcast use group_view_lemmas;

    if depth == 0 {
        return Err(Fault::TooDeep);
    }
    let e = depth - 1;
    match o {
        JObject::List(l) => {
            if is_form_obj(o, "unquote") {
                return eval_within(env, &l[1], e);
            }
            let ghost lv = views(l@);
            assert(quasi_v(old(env)@, o.view(), depth as nat) == as_list(
                walk_from(old(env)@, lv, 0, e as nat),
            ));
            let mut done: Vec<JObject> = Vec::new();
            let mut i: usize = 0;
            while i < l.len()
                invariant
                    i <= l.len(),
                    e == depth - 1,
                    lv == views(l@),
                    quasi_v(old(env)@, o.view(), depth as nat) == as_list(
                        walk_from(old(env)@, lv, 0, e as nat),
                    ),
                    walk_from(old(env)@, lv, 0, e as nat) == crate::eval::prefixed(
                        views(done@),
                        walk_from(env@, lv, i as int, e as nat),
                    ),
                decreases l.len() - i,
            {
                let x = &l[i];
                let r = if is_form_obj(x, "splice-unquote") {
                    match x {
                        JObject::List(xl) => {
                            proof {
                                crate::json::lemma_list_view(*xl);
                            }
                            eval_within(env, &xl[1], e)
                        },
                        _ => Ok(x.copy()),
                    }
                } else {
                    Ok(x.copy())
                };
                match r {
                    Err(f) => {
                        return Err(f);
                    },
                    Ok(v) => {
                        let ghost acc = views(done@);
                        done.push(v);
                        proof {
                            assert(views(done@) =~= acc + seq![v.view()]);
                            crate::eval::lemma_prefixed_twice(
                                acc,
                                seq![v.view()],
                                walk_from(env@, lv, i + 1, e as nat),
                            );
                        }
                        i += 1;
                    },
                }
            }
            assert(views(done@) + Seq::<Val>::empty() =~= views(done@));
            Ok(JObject::List(done))
        },
        _ => Ok(o.copy()),
    }
}

/// What `def` does: binds the name given first to the value of the second argument.
pub open spec fn def_v(st: EnvState, args: Seq<Val>, d: nat) -> (EnvState, Result<Val, Fault>)
    decreases d, 1int,
{
    if args.len() != 2 {
        (st, Ok(bad_arity(args.len(), 2)))
    } else {
        match args[0] {
            Val::Str(s) => {
                let (st1, r) = eval_v(st, args[1], d);
                match r {
                    Ok(x) => (st1.define(s, x), Ok(x)),
                    Err(f) => (st1, Err(f)),
                }
            },
            _ => (st, Err(Fault::NotAName)),
        }
    }
}

/// `def`: binds the name given as first argument to the value of the second.
fn def(env: &mut Environment, args: &Vec<JObject>, depth: u64) -> (r: Result<JObject, Fault>)
    ensures
        (final(env)@, outcome(r)) == def_v(old(env)@, views(args@), depth as nat),
    decreases depth, 1int,
{
    if args.len() != 2 {
        return Ok(bad_arity_value(args.len(), 2));
    }
    match &args[0] {
        JObject::String(s) => {
            let x = eval_within(env, &args[1], depth);
            match x {
                Ok(v) => {
                    env.define(s.clone(), v.copy());
                    Ok(v)
                },
                Err(f) => Err(f),
            }
        },
        _ => Err(Fault::NotAName),
    }
}

/// Whether every element of `ps` is a string.
pub open spec fn all_names(ps: Seq<Val>) -> bool {
    forall|i: int| 0 <= i < ps.len() ==> (#[trigger] ps[i]) is Str
}

/// What `f` (or, with `is_macro`, `macro`) builds from its unevaluated arguments.
pub open spec fn callable_v(args: Seq<Val>, is_macro: bool) -> Result<Val, Fault> {
    if args.len() != 2 {
        Ok(bad_arity(args.len(), 2))
    } else {
        match args[0] {
            Val::List(ps) => if !all_names(ps) {
                Err(Fault::BadParameter)
            } else {
                let params = ps.map_values(|p: Val| p->Str_0);
                if is_macro {
                    Ok(Val::Macro { params, body: Box::new(args[1]) })
                } else {
                    Ok(Val::Func { params, body: Box::new(args[1]) })
                }
            },
            _ => Err(Fault::BadParameter),
        }
    }
}

/// `f` and `macro`: a function (or macro) with the given parameter names and body.
fn callable(args: &Vec<JObject>, is_macro: bool) -> (r: Result<JObject, Fault>)
    ensures
        outcome(r) == callable_v(views(args@), is_macro),
{
    broadcast use group_view_lemmas;

    if args.len() != 2 {
        return Ok(bad_arity_value(args.len(), 2));
    }
    match &args[0] {
        JObject::List(ps) => {
            proof {
                crate::json::lemma_list_view(*ps);
            }
            let ghost pv = views(ps@);
            assert(views(args@)[0] == Val::List(pv));
            let mut names: Vec<String> = Vec::new();
            let mut i: usize = 0;
            while i < ps.len()
                invariant
                    i <= ps.len(),
                    pv == views(ps@),
                    args@.len() == 2,
                    views(args@)[0] == Val::List(pv),
                    names@.len() == i,
                    forall|j: int| 0 <= j < i ==> #[trigger] pv[j] == Val::Str(names@[j]@),
                decreases ps.len() - i,
            {
                match &ps[i] {
                    JObject::String(s) => names.push(s.clone()),
                    _ => {
                        assert(!(pv[i as int] is Str));
                        assert(!all_names(pv));
                        return Err(Fault::BadParameter);
                    },
                }
                i += 1;
            }
            assert(names_view(names@) =~= pv.map_values(|p: Val| p->Str_0));
            let body = Box::new(args[1].copy());
            if is_macro {
                Ok(JObject::Macro { parameters: names, definition: body })
            } else {
                Ok(JObject::Func { parameters: names, definition: body })
            }
        },
        _ => Err(Fault::BadParameter),
    }
}

/// What `program` does: evaluates every argument in order and gives the last value.
pub open spec fn program_v(st: EnvState, args: Seq<Val>, d: nat) -> (EnvState, Result<Val, Fault>)
    decreases d, 0int,
{
    if d == 0 {
        (st, Err(Fault::TooDeep))
    } else {
        let (st1, r) = eval_seq_from(st, args, 0, (d - 1) as nat);
        match r {
            Err(f) => (st1, Err(f)),
            Ok(vs) => (st1, Ok(if vs.len() == 0 { Val::Null } else { vs.last() })),
        }
    }
}

/// `program`: evaluates every argument in order and gives the last value.
fn program(env: &mut Environment, args: &Vec<JObject>, depth: u64) -> (r: Result<JObject, Fault>)
    ensures
        (final(env)@, outcome(r)) == program_v(old(env)@, views(args@), depth as nat),
    decreases depth, 0int,
{
    if depth == 0 {
        return Err(Fault::TooDeep);
    }
    match eval_args(env, args, depth - 1) {
        Err(f) => Err(f),
        Ok(vs) => {
            if vs.len() == 0 {
                Ok(JObject::Null)
            } else {
                Ok(vs[vs.len() - 1].copy())
            }
        },
    }
}

/// What `type` gives: the kind of its one evaluated argument, or a list of the kinds of all.
pub open spec fn type_v(st: EnvState, args: Seq<Val>, d: nat) -> (EnvState, Result<Val, Fault>)
    decreases d, 0int,
{
    if d == 0 {
        (st, Err(Fault::TooDeep))
    } else {
        let (st1, r) = eval_seq_from(st, args, 0, (d - 1) as nat);
        match r {
            Err(f) => (st1, Err(f)),
            Ok(vs) => (
                st1,
                Ok(
                    if vs.len() == 1 {
                        Val::Str(kind_name(vs[0]))
                    } else {
                        Val::List(Seq::new(vs.len(), |i: int| Val::Str(kind_name(vs[i]))))
                    },
                ),
            ),
        }
    }
}

/// `type`: the kind of its one evaluated argument, or a list of the kinds of all of them.
fn type_of(env: &mut Environment, args: &Vec<JObject>, depth: u64) -> (r: Result<JObject, Fault>)
    ensures
        (final(env)@, outcome(r)) == type_v(old(env)@, views(args@), depth as nat),
    decreases depth, 0int,
{
    broadcast use group_view_lemmas;

    if depth == 0 {
        return Err(Fault::TooDeep);
    }
    match eval_args(env, args, depth - 1) {
        Err(f) => Err(f),
        Ok(vs) => {
            if vs.len() == 1 {
                Ok(JObject::String(vs[0].typename()))
            } else {
                let ghost vv = views(vs@);
                let mut names: Vec<JObject> = Vec::new();
                let mut i: usize = 0;
                while i < vs.len()
                    invariant
                        i <= vs.len(),
                        vv == views(vs@),
                        names@.len() == i,
                        forall|j: int|
                            0 <= j < i ==> #[trigger] names@[j].view() == Val::Str(
                                kind_name(vv[j]),
                            ),
                    decreases vs.len() - i,
                {
                    names.push(JObject::String(vs[i].typename()));
                    i += 1;
                }
                assert(views(names@) =~= Seq::new(vv.len(), |i: int| Val::Str(kind_name(vv[i]))));
                Ok(JObject::List(names))
            }
        },
    }
}

/// What `->string` gives: the printed form of its evaluated argument.
pub open spec fn to_text_v(st: EnvState, args: Seq<Val>, d: nat) -> (EnvState, Result<Val, Fault>)
    decreases d, 1int,
{
    if args.len() != 1 {
        (st, Ok(bad_arity(args.len(), 1)))
    } else {
        let (st1, r) = eval_v(st, args[0], d);
        match r {
            Err(f) => (st1, Err(f)),
            Ok(x) => (st1, Ok(Val::Str(text(x)))),
        }
    }
}

/// `->string`: the printed form of its evaluated argument.
fn to_text_form(env: &mut Environment, args: &Vec<JObject>, depth: u64) -> (r: Result<
    JObject,
    Fault,
>)
    ensures
        (final(env)@, outcome(r)) == to_text_v(old(env)@, views(args@), depth as nat),
    decreases depth, 1int,
{
    if args.len() != 1 {
        return Ok(bad_arity_value(args.len(), 1));
    }
    match eval_within(env, &args[0], depth) {
        Err(f) => Err(f),
        Ok(x) => Ok(JObject::String(x.to_text())),
    }
}

/// The environment after loading the core forms.
pub open spec fn core_module(st: EnvState) -> EnvState {
    st.register("import"@, Builtin::Import).register("type"@, Builtin::Type).register(
        "->string"@,
        Builtin::ToText,
    ).register("quote"@, Builtin::Quote).register("quasiquote"@, Builtin::Quasiquote).register(
        "def"@,
        Builtin::Def,
    ).register("f"@, Builtin::F).register("macro"@, Builtin::Macro).register(
        "program"@,
        Builtin::Program,
    ).register("crash"@, Builtin::Crash).register("if"@, Builtin::If)
}

/// Loads the core forms: `import`, `type`, `->string`, `quote`, `quasiquote`,
/// `def`, `f`, `macro`, `program`, `crash` and `if`.
pub fn load_mod(env: &mut Environment)
    ensures
        final(env)@ == core_module(old(env)@),
{
    env.insert_builtin("import", Builtin::Import);
    env.insert_builtin("type", Builtin::Type);
    env.insert_builtin("->string", Builtin::ToText);
    env.insert_builtin("quote", Builtin::Quote);
    env.insert_builtin("quasiquote", Builtin::Quasiquote);
    env.insert_builtin("def", Builtin::Def);
    env.insert_builtin("f", Builtin::F);
    env.insert_builtin("macro", Builtin::Macro);
    env.insert_builtin("program", Builtin::Program);
    env.insert_builtin("crash", Builtin::Crash);
    env.insert_builtin("if", Builtin::If);
}

/// What importing the module named `name` does, and the value it gives.
pub open spec fn import_module(st: EnvState, name: Seq<char>) -> (EnvState, Val) {
    if name == "std::io"@ {
        (io::io_module(st), ok_val())
    } else if name == "std::array"@ {
        (array::array_module(st), ok_val())
    } else if name == "std::object"@ {
        (object::object_module(st), ok_val())
    } else if name == "std::logic"@ {
        (logic::logic_module(st), ok_val())
    } else {
        (st, bad_import())
    }
}

/// Loads the builtin module named `name`: `std::io`, `std::array`,
/// `std::object` or `std::logic`.
pub fn import_builtin_library(env: &mut Environment, name: &String) -> (r: JObject)
    ensures
        (final(env)@, r.view()) == import_module(old(env)@, name@),
{
    if same_text(name, "std::io") {
        io::load_mod(env);
    } else if same_text(name, "std::array") {
        array::load_mod(env);
    } else if same_text(name, "std::object") {
        object::load_mod(env);
    } else if same_text(name, "std::logic") {
        logic::load_mod(env);
    } else {
        return bad_import_value();
    }
    JObject::String("ok".to_string())
}

/// The arguments of `import` from index `i` on, after `last` was the value of the ones before.
pub open spec fn import_from(st: EnvState, args: Seq<Val>, i: int, last: Val) -> (EnvState, Val)
    decreases args.len() - i,
{
    if 0 <= i < args.len() {
        match args[i] {
            Val::Str(s) => {
                let (st1, v) = import_module(st, s);
                import_from(st1, args, i + 1, v)
            },
            _ => (st, bad_import()),
        }
    } else {
        (st, last)
    }
}

/// `import`: loads each module named by an argument.
fn import(env: &mut Environment, args: &Vec<JObject>) -> (r: JObject)
    ensures
        (final(env)@, r.view()) == import_from(old(env)@, views(args@), 0, ok_val()),
{
    let ghost av = views(args@);
    let mut last = JObject::String("ok".to_string());
    let mut i: usize = 0;
    while i < args.len()
        invariant
            i <= args.len(),
            av == views(args@),
            import_from(old(env)@, av, 0, ok_val()) == import_from(env@, av, i as int, last.view()),
        decreases args.len() - i,
    {
        match &args[i] {
            JObject::String(s) => {
                last = import_builtin_library(env, s);
            },
            _ => {
                return bad_import_value();
            },
        }
        i += 1;
    }
    last
}

} // verus!
