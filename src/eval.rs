use vstd::prelude::*;

use crate::json::{entries_view, group_view_lemmas, names_view, views, JObject, Val};
use crate::stdlib::{builtin_v, call_builtin};
use crate::text::{push_str, string_of, text};

verus! {

/// How far evaluation may nest before it gives up with [`Fault::TooDeep`];
/// a caller needs a stack of about a gigabyte to use all of it.
pub const MAX_DEPTH: u64 = 100000;

/// A condition that stops the whole program: there is no recovery from one.
#[derive(Debug, Clone, Copy, PartialEq, Eq, Structural)]
pub enum Fault {
    /// A function or macro was applied to the wrong number of arguments.
    Arity { expected: usize, given: usize },
    /// `def` was given a name that is not a string.
    NotAName,
    /// `f` or `macro` was given parameters that are not a list of strings.
    BadParameter,
    /// The deliberate trap of `crash`.
    Crash,
    /// Evaluation nested deeper than its budget.
    TooDeep,
}

/// The native operations that a name in the environment can stand for.
#[derive(Debug, Clone, Copy, PartialEq, Eq, Structural)]
pub enum Builtin {
    Quote,
    Quasiquote,
    Def,
    F,
    Macro,
    If,
    Program,
    Crash,
    Import,
    Type,
    ToText,
    Head,
    Tail,
    Len,
    MapList,
    ContainsKey,
    Insert,
    Println,
    Or,
}

/// Whether `i` is the first index of `s` whose key is `k`.
pub open spec fn key_at<V>(s: Seq<(Seq<char>, V)>, k: Seq<char>, i: int) -> bool {
    &&& 0 <= i < s.len()
    &&& s[i].0 == k
    &&& forall|j: int| 0 <= j < i ==> s[j].0 != k
}

/// The value of the first entry of `s` with key `k`.
pub open spec fn assoc_get<V>(s: Seq<(Seq<char>, V)>, k: Seq<char>) -> Option<V> {
    if exists|i: int| key_at(s, k, i) {
        Some(s[choose|i: int| key_at(s, k, i)].1)
    } else {
        None
    }
}

/// `s` with the value of key `k` set to `v`: the entry is replaced in place,
/// or added at the end when there is none.
pub open spec fn assoc_set<V>(s: Seq<(Seq<char>, V)>, k: Seq<char>, v: V) -> Seq<(Seq<char>, V)> {
    if exists|i: int| key_at(s, k, i) {
        s.update(choose|i: int| key_at(s, k, i), (k, v))
    } else {
        s.push((k, v))
    }
}

pub proof fn lemma_key_at_unique<V>(s: Seq<(Seq<char>, V)>, k: Seq<char>, i: int, j: int)
    requires
        key_at(s, k, i),
        key_at(s, k, j),
    ensures
        i == j,
{
}

/// A key that occurs in `s` has a first occurrence.
pub proof fn lemma_first_key<V>(s: Seq<(Seq<char>, V)>, k: Seq<char>, j: int)
    requires
        0 <= j < s.len(),
        s[j].0 == k,
    ensures
        exists|i: int| key_at(s, k, i),
    decreases j,
{
    if exists|m: int| 0 <= m < j && s[m].0 == k {
        let m = choose|m: int| 0 <= m < j && s[m].0 == k;
        lemma_first_key(s, k, m);
    } else {
        assert(key_at(s, k, j));
    }
}

/// After a key is set, it maps to the value it was set to.
pub proof fn lemma_get_set<V>(s: Seq<(Seq<char>, V)>, k: Seq<char>, v: V)
    ensures
        assoc_get(assoc_set(s, k, v), k) == Some(v),
{
    let t = assoc_set(s, k, v);
    if exists|i: int| key_at(s, k, i) {
        let i = choose|i: int| key_at(s, k, i);
        assert(key_at(t, k, i));
        let c = choose|c: int| key_at(t, k, c);
        lemma_key_at_unique(t, k, i, c);
    } else {
        let i = s.len() as int;
        assert forall|j: int| 0 <= j < i implies t[j].0 != k by {
            if t[j].0 == k {
                lemma_first_key(s, k, j);
            }
        }
        assert(key_at(t, k, i));
        let c = choose|c: int| key_at(t, k, c);
        lemma_key_at_unique(t, k, i, c);
    }
}

/// Sets key `k` of the entries `m` to `v`, in place where it has an entry.
pub fn put_entry(m: &mut Vec<(String, JObject)>, k: String, v: JObject)
    ensures
        entries_view(final(m)@) == assoc_set(entries_view(old(m)@), k@, v.view()),
{
    let ghost es = entries_view(m@);
    let ghost kv = k@;
    let ghost vv = v.view();
    let mut i: usize = 0;
    while i < m.len()
        invariant
            i <= m.len(),
            es == entries_view(m@),
            kv == k@,
            vv == v.view(),
            m@ == old(m)@,
            forall|j: int| 0 <= j < i ==> (#[trigger] m@[j]).0@ != kv,
        decreases m.len() - i,
    {
        if m[i].0.eq(&k) {
            proof {
                assert(key_at(es, kv, i as int));
                let c = choose|c: int| key_at(es, kv, c);
                lemma_key_at_unique(es, kv, i as int, c);
            }
            m.set(i, (k, v));
            assert(entries_view(m@) =~= assoc_set(es, kv, vv));
            return ;
        }
        i += 1;
    }
    m.push((k, v));
    assert(entries_view(m@) =~= assoc_set(es, kv, vv));
}

/// The state of an environment: the global symbols, the names of the
/// builtins, and the lines written so far.
pub struct EnvState {
    pub symbols: Seq<(Seq<char>, Val)>,
    pub builtins: Seq<(Seq<char>, Builtin)>,
    pub output: Seq<Seq<char>>,
}

impl EnvState {
    /// The state with `k` bound to `v`.
    pub open spec fn define(self, k: Seq<char>, v: Val) -> EnvState {
        EnvState { symbols: assoc_set(self.symbols, k, v), ..self }
    }

    /// The state with `k` naming the builtin `b`.
    pub open spec fn register(self, k: Seq<char>, b: Builtin) -> EnvState {
        EnvState { builtins: assoc_set(self.builtins, k, b), ..self }
    }

    /// The state with `line` written to the output.
    pub open spec fn report(self, line: Seq<char>) -> EnvState {
        EnvState { output: self.output.push(line), ..self }
    }

    /// The value bound to `k`, if any.
    pub open spec fn lookup(self, k: Seq<char>) -> Option<Val> {
        assoc_get(self.symbols, k)
    }

    /// The builtin that `k` names, if any.
    pub open spec fn builtin(self, k: Seq<char>) -> Option<Builtin> {
        assoc_get(self.builtins, k)
    }
}

/// The single global scope of a program, with its builtins and the lines
/// that evaluation has written.
pub struct Environment {
    pub symbols: Vec<(String, JObject)>,
    pub builtins: Vec<(String, Builtin)>,
    pub output: Vec<String>,
}

/// The text of each string.
pub open spec fn strings_view(s: Seq<String>) -> Seq<Seq<char>> {
    Seq::new(s.len(), |i: int| s[i]@)
}

/// The name text and builtin of each entry.
pub open spec fn table_view(s: Seq<(String, Builtin)>) -> Seq<(Seq<char>, Builtin)> {
    Seq::new(s.len(), |i: int| (s[i].0@, s[i].1))
}

impl View for Environment {
    type V = EnvState;

    open spec fn view(&self) -> EnvState {
        EnvState {
            symbols: entries_view(self.symbols@),
            builtins: table_view(self.builtins@),
            output: strings_view(self.output@),
        }
    }
}

/// The value of an optional result.
pub open spec fn opt_view(o: Option<JObject>) -> Option<Val> {
    match o {
        Some(j) => Some(j.view()),
        None => None,
    }
}

/// Whether `a` and `b` hold the same text.
pub fn same_text(a: &String, b: &str) -> (r: bool)
    ensures
        r == (a@ == b@),
{
    let t = b.to_string();
    a.eq(&t)
}

impl Environment {
    /// An environment with no symbols, no builtins and no output.
    pub fn init() -> (r: Environment)
        ensures
            r@.symbols.len() == 0,
            r@.builtins.len() == 0,
            r@.output.len() == 0,
    {
        let r = Environment { symbols: Vec::new(), builtins: Vec::new(), output: Vec::new() };
        assert(r@.symbols =~= Seq::empty());
        r
    }

    /// The index of the first symbol named `name`.
    fn symbol_index(&self, name: &String) -> (r: Option<usize>)
        ensures
            match r {
                Some(i) => key_at(self@.symbols, name@, i as int),
                None => !exists|i: int| key_at(self@.symbols, name@, i),
            },
    {
        let mut i: usize = 0;
        while i < self.symbols.len()
            invariant
                i <= self.symbols.len(),
                forall|j: int| 0 <= j < i ==> (#[trigger] self.symbols@[j]).0@ != name@,
            decreases self.symbols.len() - i,
        {
            if self.symbols[i].0.eq(name) {
                return Some(i);
            }
            i += 1;
        }
        None
    }

    /// The value bound to `name`, if any.
    pub fn lookup(&self, name: &String) -> (r: Option<JObject>)
        ensures
            opt_view(r) == self@.lookup(name@),
    {
        match self.symbol_index(name) {
            Some(i) => {
                proof {
                    let c = choose|c: int| key_at(self@.symbols, name@, c);
                    lemma_key_at_unique(self@.symbols, name@, i as int, c);
                }
                Some(self.symbols[i].1.copy())
            },
            None => None,
        }
    }

    /// Binds `name` to `value`, over any earlier binding.
    pub fn define(&mut self, name: String, value: JObject)
        ensures
            final(self)@ == old(self)@.define(name@, value.view()),
    {
        let ghost k = name@;
        let ghost v = value.view();
        match self.symbol_index(&name) {
            Some(i) => {
                proof {
                    let c = choose|c: int| key_at(old(self)@.symbols, k, c);
                    lemma_key_at_unique(old(self)@.symbols, k, i as int, c);
                }
                self.symbols.set(i, (name, value));
                assert(self@.symbols =~= assoc_set(old(self)@.symbols, k, v));
            },
            None => {
                self.symbols.push((name, value));
                assert(self@.symbols =~= assoc_set(old(self)@.symbols, k, v));
            },
        }
        assert(self@.builtins =~= old(self)@.builtins);
        assert(self@.output =~= old(self)@.output);
    }

    /// The builtin that `name` stands for, if any.
    pub fn lookup_builtin(&self, name: &String) -> (r: Option<Builtin>)
        ensures
            r == self@.builtin(name@),
    {
        let mut i: usize = 0;
        while i < self.builtins.len()
            invariant
                i <= self.builtins.len(),
                forall|j: int| 0 <= j < i ==> (#[trigger] self.builtins@[j]).0@ != name@,
            decreases self.builtins.len() - i,
        {
            if self.builtins[i].0.eq(name) {
                proof {
                    assert(key_at(self@.builtins, name@, i as int));
                    let c = choose|c: int| key_at(self@.builtins, name@, c);
                    lemma_key_at_unique(self@.builtins, name@, i as int, c);
                }
                return Some(self.builtins[i].1);
            }
            i += 1;
        }
        None
    }

    /// The index of the first builtin named `name`.
    fn builtin_index(&self, name: &String) -> (r: Option<usize>)
        ensures
            match r {
                Some(i) => key_at(self@.builtins, name@, i as int),
                None => !exists|i: int| key_at(self@.builtins, name@, i),
            },
    {
        let mut i: usize = 0;
        while i < self.builtins.len()
            invariant
                i <= self.builtins.len(),
                forall|j: int| 0 <= j < i ==> (#[trigger] self.builtins@[j]).0@ != name@,
            decreases self.builtins.len() - i,
        {
            if self.builtins[i].0.eq(name) {
                return Some(i);
            }
            i += 1;
        }
        None
    }

    /// Makes `fname` stand for the builtin `fbody`, over any earlier one.
    pub fn insert_builtin(&mut self, fname: &str, fbody: Builtin)
        ensures
            final(self)@ == old(self)@.register(fname@, fbody),
    {
        let name = fname.to_string();
        let ghost k = name@;
        match self.builtin_index(&name) {
            Some(i) => {
                proof {
                    let c = choose|c: int| key_at(old(self)@.builtins, k, c);
                    lemma_key_at_unique(old(self)@.builtins, k, i as int, c);
                }
                self.builtins.set(i, (name, fbody));
            },
            None => {
                self.builtins.push((name, fbody));
            },
        }
        assert(self@.builtins =~= assoc_set(old(self)@.builtins, k, fbody));
        assert(self@.symbols =~= old(self)@.symbols);
        assert(self@.output =~= old(self)@.output);
    }

    /// Adds a line to the output.
    pub fn report(&mut self, line: String)
        ensures
            final(self)@ == old(self)@.report(line@),
    {
        self.output.push(line);
        assert(self@.output =~= old(self)@.output.push(line@));
        assert(self@.symbols =~= old(self)@.symbols);
        assert(self@.builtins =~= old(self)@.builtins);
    }

    /// Hands out the lines written so far and clears them.
    pub fn take_output(&mut self) -> (r: Vec<String>)
        ensures
            strings_view(r@) == old(self)@.output,
            final(self)@ == (EnvState { output: Seq::empty(), ..old(self)@ }),
    {
        let r = self.output.split_off(0);
        assert(self@.output =~= Seq::empty());
        assert(self@.symbols =~= old(self)@.symbols);
        assert(self@.builtins =~= old(self)@.builtins);
        r
    }
}

/// The result of an evaluation, as values.
pub open spec fn outcome(r: Result<JObject, Fault>) -> Result<Val, Fault> {
    match r {
        Ok(j) => Ok(j.view()),
        Err(f) => Err(f),
    }
}

/// The results of evaluating several values, as values.
pub open spec fn outcomes(r: Result<Vec<JObject>, Fault>) -> Result<Seq<Val>, Fault> {
    match r {
        Ok(v) => Ok(views(v@)),
        Err(f) => Err(f),
    }
}

/// `acc` put in front of a successful result.
pub open spec fn prefixed<T>(acc: Seq<T>, p: (EnvState, Result<Seq<T>, Fault>)) -> (
    EnvState,
    Result<Seq<T>, Fault>,
) {
    match p.1 {
        Ok(t) => (p.0, Ok(acc + t)),
        Err(f) => (p.0, Err(f)),
    }
}

pub proof fn lemma_prefixed_twice<T>(a: Seq<T>, b: Seq<T>, p: (EnvState, Result<Seq<T>, Fault>))
    ensures
        prefixed(a, prefixed(b, p)) == prefixed(a + b, p),
{
    match p.1 {
        Ok(t) => assert(a + (b + t) =~= (a + b) + t),
        Err(_) => {},
    }
}

/// The line reported for a list whose head cannot be applied.
pub open spec fn not_callable_msg(v: Val) -> Seq<char> {
    "1st element of list is not function-like: "@ + text(v)
}

/// The line reported for a name that is neither bound nor a builtin.
pub open spec fn unknown_msg(name: Seq<char>) -> Seq<char> {
    "unknown function: "@ + name
}

/// The environment after `params[j]` is bound to `args[j]` for each `j < n`, in order.
pub open spec fn bind_v(st: EnvState, params: Seq<Seq<char>>, args: Seq<Val>, n: int) -> EnvState
    decreases n,
{
    if n <= 0 {
        st
    } else {
        bind_v(st, params, args, n - 1).define(params[n - 1], args[n - 1])
    }
}

/// What evaluating `v` gives and leaves behind, with `d` levels of nesting allowed.
///
/// A name bound in the environment evaluates to its value, evaluated in turn;
/// an unbound one to itself. A map evaluates its values in order, an empty
/// list is itself, and a non-empty list is an application of its head.
pub open spec fn eval_v(st: EnvState, v: Val, d: nat) -> (EnvState, Result<Val, Fault>)
    decreases d, 0int,
{
    if d == 0 {
        (st, Err(Fault::TooDeep))
    } else {
        let e = (d - 1) as nat;
        match v {
            Val::Str(s) => match st.lookup(s) {
                Some(b) => eval_v(st, b, e),
                None => (st, Ok(v)),
            },
            Val::List(l) => if l.len() == 0 {
                (st, Ok(v))
            } else {
                apply_v(st, l[0], l.drop_first(), e)
            },
            Val::Object(m) => {
                let (st1, r) = entries_from(st, m, 0, e);
                match r {
                    Ok(n) => (st1, Ok(Val::Object(n))),
                    Err(f) => (st1, Err(f)),
                }
            },
            _ => (st, Ok(v)),
        }
    }
}

/// A list whose head is `head` and whose other elements are `tail`, evaluated.
///
/// A function evaluates its arguments, binds them to its parameters in the
/// single global scope and evaluates its body there. A macro binds its
/// parameters to the unevaluated arguments, evaluates its body, and then
/// evaluates the expansion that the body gave. A name bound to a value is
/// replaced by that value; a name of a builtin runs it on the unevaluated
/// arguments; a list is evaluated first and its value applied. Anything else,
/// and a name that is neither, is reported and gives `Null`.
pub open spec fn apply_v(st: EnvState, head: Val, tail: Seq<Val>, d: nat) -> (
    EnvState,
    Result<Val, Fault>,
)
    decreases d, 0int,
{
    if d == 0 {
        (st, Err(Fault::TooDeep))
    } else {
        let e = (d - 1) as nat;
        match head {
            Val::Func { params, body } => {
                let (st1, r) = eval_seq_from(st, tail, 0, e);
                match r {
                    Err(f) => (st1, Err(f)),
                    Ok(args) => if args.len() != params.len() {
                        (
                            st1,
                            Err(
                                Fault::Arity {
                                    expected: params.len() as usize,
                                    given: args.len() as usize,
                                },
                            ),
                        )
                    } else {
                        eval_v(bind_v(st1, params, args, params.len() as int), *body, e)
                    },
                }
            },
            Val::Macro { params, body } => if tail.len() != params.len() {
                (
                    st,
                    Err(
                        Fault::Arity { expected: params.len() as usize, given: tail.len() as usize },
                    ),
                )
            } else {
                let (st1, r) = eval_v(bind_v(st, params, tail, params.len() as int), *body, e);
                match r {
                    Err(f) => (st1, Err(f)),
                    Ok(x) => eval_v(st1, x, e),
                }
            },
            Val::Str(s) => match st.lookup(s) {
                Some(b) => apply_v(st, b, tail, e),
                None => match st.builtin(s) {
                    Some(b) => builtin_v(st, b, tail, e),
                    None => (st.report(unknown_msg(s)), Ok(Val::Null)),
                },
            },
            Val::List(_) => {
                let (st1, r) = eval_v(st, head, e);
                match r {
                    Err(f) => (st1, Err(f)),
                    Ok(h) => apply_v(st1, h, tail, e),
                }
            },
            _ => (st.report(not_callable_msg(head)), Ok(Val::Null)),
        }
    }
}

/// The elements of `s` from index `i` on, evaluated in order; the first fault stops it.
pub open spec fn eval_seq_from(st: EnvState, s: Seq<Val>, i: int, d: nat) -> (
    EnvState,
    Result<Seq<Val>, Fault>,
)
    decreases d, s.len() - i + 1,
{
    if 0 <= i < s.len() {
        let (st1, r) = eval_v(st, s[i], d);
        match r {
            Err(f) => (st1, Err(f)),
            Ok(x) => prefixed(seq![x], eval_seq_from(st1, s, i + 1, d)),
        }
    } else {
        (st, Ok(Seq::empty()))
    }
}

/// The values of the entries of `m` from index `i` on, evaluated in order; keys stay.
pub open spec fn entries_from(st: EnvState, m: Seq<(Seq<char>, Val)>, i: int, d: nat) -> (
    EnvState,
    Result<Seq<(Seq<char>, Val)>, Fault>,
)
    decreases d, m.len() - i + 1,
{
    if 0 <= i < m.len() {
        let (st1, r) = eval_v(st, m[i].1, d);
        match r {
            Err(f) => (st1, Err(f)),
            Ok(x) => prefixed(seq![(m[i].0, x)], entries_from(st1, m, i + 1, d)),
        }
    } else {
        (st, Ok(Seq::empty()))
    }
}

/// A successful evaluation of the elements from index `i` on gives one value for each.
pub proof fn lemma_eval_seq_len(st: EnvState, s: Seq<Val>, i: int, d: nat)
    requires
        0 <= i <= s.len(),
    ensures
        eval_seq_from(st, s, i, d).1 is Ok ==> eval_seq_from(st, s, i, d).1->Ok_0.len() == s.len()
            - i,
    decreases s.len() - i,
{
    if i < s.len() {
        let (st1, r) = eval_v(st, s[i], d);
        if r is Ok {
            lemma_eval_seq_len(st1, s, i + 1, d);
        }
    }
}

/// Evaluates `o` in `env`, with the default nesting budget.
pub fn eval(env: &mut Environment, o: &JObject) -> (r: Result<JObject, Fault>)
    ensures
        (final(env)@, outcome(r)) == eval_v(old(env)@, o.view(), MAX_DEPTH as nat),
{
    eval_within(env, o, MAX_DEPTH)
}

/// Evaluates `o` in `env`, with `depth` levels of nesting allowed.
pub fn eval_within(env: &mut Environment, o: &JObject, depth: u64) -> (r: Result<JObject, Fault>)
    ensures
        (final(env)@, outcome(r)) == eval_v(old(env)@, o.view(), depth as nat),
    decreases depth, 0int,
{
    broadcast use group_view_lemmas;

    if depth == 0 {
        return Err(Fault::TooDeep);
    }
    let e = depth - 1;
    match o {
        JObject::String(s) => match env.lookup(s) {
            Some(b) => eval_within(env, &b, e),
            None => Ok(o.copy()),
        },
        JObject::List(l) => {
            if l.len() == 0 {
                Ok(o.copy())
            } else {
                let tail = copy_tail(l);
                apply(env, l[0].copy(), tail, e)
            }
        },
        JObject::Object(m) => {
            let r = eval_entries(env, m, e);
            match r {
                Ok(n) => Ok(JObject::Object(n)),
                Err(f) => Err(f),
            }
        },
        _ => Ok(o.copy()),
    }
}

/// The elements of a non-empty list after the first.
fn copy_tail(l: &Vec<JObject>) -> (r: Vec<JObject>)
    requires
        l.len() > 0,
    ensures
        views(r@) == views(l@).drop_first(),
{
    let r = crate::json::copy_from(l, 1);
    assert(views(l@).subrange(1, l@.len() as int) =~= views(l@).drop_first());
    r
}

/// Evaluates the values of the entries of `m` in order.
fn eval_entries(env: &mut Environment, m: &Vec<(String, JObject)>, depth: u64) -> (r: Result<
    Vec<(String, JObject)>,
    Fault,
>)
    ensures
        (final(env)@, match r {
            Ok(n) => Ok(entries_view(n@)),
            Err(f) => Err(f),
        }) == entries_from(old(env)@, entries_view(m@), 0, depth as nat),
    decreases depth, 1int,
{
    let ghost es = entries_view(m@);
    let mut out: Vec<(String, JObject)> = Vec::new();
    let mut i: usize = 0;
    while i < m.len()
        invariant
            i <= m.len(),
            es == entries_view(m@),
            entries_from(old(env)@, es, 0, depth as nat) == prefixed(
                entries_view(out@),
                entries_from(env@, es, i as int, depth as nat),
            ),
        decreases m.len() - i,
    {
        let x = eval_within(env, &m[i].1, depth);
        match x {
            Err(f) => {
                return Err(f);
            },
            Ok(v) => {
                let ghost acc = entries_view(out@);
                out.push((m[i].0.clone(), v));
                proof {
                    assert(entries_view(out@) =~= acc + seq![(es[i as int].0, v.view())]);
                    lemma_prefixed_twice(
                        acc,
                        seq![(es[i as int].0, v.view())],
                        entries_from(env@, es, i + 1, depth as nat),
                    );
                }
                i += 1;
            },
        }
    }
    assert(entries_view(out@) + Seq::<(Seq<char>, Val)>::empty() =~= entries_view(out@));
    Ok(out)
}

/// Evaluates the elements of `s` in order.
pub fn eval_args(env: &mut Environment, s: &Vec<JObject>, depth: u64) -> (r: Result<Vec<JObject>, Fault>)
    ensures
        (final(env)@, outcomes(r)) == eval_seq_from(old(env)@, views(s@), 0, depth as nat),
        r is Ok ==> r->Ok_0@.len() == s@.len(),
    decreases depth, 1int,
{
    proof {
        lemma_eval_seq_len(old(env)@, views(s@), 0, depth as nat);
    }
    let ghost vs = views(s@);
    let mut out: Vec<JObject> = Vec::new();
    let mut i: usize = 0;
    while i < s.len()
        invariant
            i <= s.len(),
            vs == views(s@),
            eval_seq_from(old(env)@, vs, 0, depth as nat) == prefixed(
                views(out@),
                eval_seq_from(env@, vs, i as int, depth as nat),
            ),
        decreases s.len() - i,
    {
        let x = eval_within(env, &s[i], depth);
        match x {
            Err(f) => {
                return Err(f);
            },
            Ok(v) => {
                let ghost acc = views(out@);
                out.push(v);
                proof {
                    assert(views(out@) =~= acc + seq![v.view()]);
                    lemma_prefixed_twice(
                        acc,
                        seq![v.view()],
                        eval_seq_from(env@, vs, i + 1, depth as nat),
                    );
                }
                i += 1;
            },
        }
    }
    assert(views(out@) + Seq::<Val>::empty() =~= views(out@));
    Ok(out)
}

/// Binds each parameter to the argument at its position, in order.
fn bind(env: &mut Environment, params: &Vec<String>, args: Vec<JObject>)
    requires
        params.len() == args.len(),
    ensures
        final(env)@ == bind_v(old(env)@, names_view(params@), views(args@), params.len() as int),
{
    let ghost ps = names_view(params@);
    let ghost vs = views(args@);
    let mut i: usize = 0;
    while i < params.len()
        invariant
            i <= params.len(),
            params.len() == args.len(),
            ps == names_view(params@),
            vs == views(args@),
            env@ == bind_v(old(env)@, ps, vs, i as int),
        decreases params.len() - i,
    {
        env.define(params[i].clone(), args[i].copy());
        i += 1;
    }
}

/// The message for a list whose head cannot be applied.
fn not_callable_message(head: &JObject) -> (r: String)
    ensures
        r@ == not_callable_msg(head.view()),
{
    let mut out: Vec<char> = Vec::new();
    push_str(&mut out, "1st element of list is not function-like: ");
    head.write_text(&mut out);
    string_of(out.as_slice())
}

/// The message for a name that is neither bound nor a builtin.
fn unknown_message(name: &String) -> (r: String)
    ensures
        r@ == unknown_msg(name@),
{
    let mut out: Vec<char> = Vec::new();
    push_str(&mut out, "unknown function: ");
    push_str(&mut out, name.as_str());
    string_of(out.as_slice())
}

/// Evaluates a list whose head is `head` and whose other elements are `tail`.
pub fn apply(env: &mut Environment, head: JObject, tail: Vec<JObject>, depth: u64) -> (r: Result<
    JObject,
    Fault,
>)
    ensures
        (final(env)@, outcome(r)) == apply_v(old(env)@, head.view(), views(tail@), depth as nat),
    decreases depth, 0int,
{
    broadcast use group_view_lemmas;

    if depth == 0 {
        return Err(Fault::TooDeep);
    }
    let e = depth - 1;
    match head {
        JObject::Func { parameters, definition } => {
            let args = eval_args(env, &tail, e);
            match args {
                Err(f) => Err(f),
                Ok(args) => {
                    if args.len() != parameters.len() {
                        Err(Fault::Arity { expected: parameters.len(), given: args.len() })
                    } else {
                        bind(env, &parameters, args);
                        eval_within(env, &definition, e)
                    }
                },
            }
        },
        JObject::Macro { parameters, definition } => {
            if tail.len() != parameters.len() {
                Err(Fault::Arity { expected: parameters.len(), given: tail.len() })
            } else {
                bind(env, &parameters, tail);
                match eval_within(env, &definition, e) {
                    Err(f) => Err(f),
                    Ok(x) => eval_within(env, &x, e),
                }
            }
        },
        JObject::String(s) => match env.lookup(&s) {
            Some(b) => apply(env, b, tail, e),
            None => match env.lookup_builtin(&s) {
                Some(b) => call_builtin(env, b, &tail, e),
                None => {
                    env.report(unknown_message(&s));
                    Ok(JObject::Null)
                },
            },
        },
        JObject::List(l) => {
            let h = JObject::List(l);
            match eval_within(env, &h, e) {
                Err(f) => Err(f),
                Ok(x) => apply(env, x, tail, e),
            }
        },
        _ => {
            env.report(not_callable_message(&head));
            Ok(JObject::Null)
        },
    }
}

} // verus!
