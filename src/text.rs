use vstd::prelude::*;

use vstd::std_specs::iter::IteratorSpec;

use crate::json::{entries_view, group_view_lemmas, names_view, views, JObject, Val};

verus! {

/// The character of the decimal digit `d`.
pub open spec fn digit(d: int) -> char {
    seq!['0', '1', '2', '3', '4', '5', '6', '7', '8', '9'][d]
}

/// The decimal digits of `n`, most significant first, without leading zeros.
pub open spec fn decimal(n: nat) -> Seq<char>
    decreases n,
{
    if n < 10 {
        seq![digit(n as int)]
    } else {
        decimal(n / 10).push(digit((n % 10) as int))
    }
}

/// A number in decimal, with a leading `-` when it is negative.
pub open spec fn number_text(n: i64) -> Seq<char> {
    if n < 0 {
        seq!['-'] + decimal((-n) as nat)
    } else {
        decimal(n as nat)
    }
}

/// `s` between double quotes.
pub open spec fn quoted(s: Seq<char>) -> Seq<char> {
    seq!['"'] + s + seq!['"']
}

/// The printed form of a value.
pub open spec fn text(v: Val) -> Seq<char>
    decreases v, 0nat,
{
    match v {
        Val::Null => "[]"@,
        Val::Bool(b) => if b {
            "true"@
        } else {
            "false"@
        },
        Val::Number(n) => number_text(n),
        Val::Str(s) => quoted(s),
        Val::List(l) => seq!['['] + items_text(l, 0) + seq![']'],
        Val::Object(m) => seq!['{'] + entries_text(m, 0) + seq!['}'],
        Val::Func { params, body } => "[\"f\",["@ + names_text(params, 0) + "],"@ + text(*body)
            + "]"@,
        Val::Macro { params, body } => "[\"macro\",["@ + names_text(params, 0) + "],"@ + text(
            *body,
        ) + "]"@,
    }
}

/// The printed items of `l` from index `i` on, separated by commas.
pub open spec fn items_text(l: Seq<Val>, i: int) -> Seq<char>
    decreases l, l.len() - i,
{
    if 0 <= i < l.len() {
        text(l[i]) + if i + 1 < l.len() {
            seq![','] + items_text(l, i + 1)
        } else {
            Seq::empty()
        }
    } else {
        Seq::empty()
    }
}

/// The printed entries of `m` from index `i` on, as `"key":value`, separated by commas.
pub open spec fn entries_text(m: Seq<(Seq<char>, Val)>, i: int) -> Seq<char>
    decreases m, m.len() - i,
{
    if 0 <= i < m.len() {
        proof {
            assert(decreases_to!(m => m[i]));
            assert(decreases_to!(m[i] => m[i].1));
        }
        quoted(m[i].0) + seq![':'] + text(m[i].1) + if i + 1 < m.len() {
            seq![','] + entries_text(m, i + 1)
        } else {
            Seq::empty()
        }
    } else {
        Seq::empty()
    }
}

/// Parameter names from index `i` on, quoted and separated by commas.
pub open spec fn names_text(p: Seq<Seq<char>>, i: int) -> Seq<char>
    decreases p.len() - i,
{
    if 0 <= i < p.len() {
        quoted(p[i]) + if i + 1 < p.len() {
            seq![','] + names_text(p, i + 1)
        } else {
            Seq::empty()
        }
    } else {
        Seq::empty()
    }
}

/// The characters of `s`, in order.
pub fn chars_of(s: &str) -> (r: Vec<char>)
    ensures
        r@ == s@,
{
    let mut it = s.chars();
    let mut out: Vec<char> = Vec::new();
    loop
        invariant
            out@ + IteratorSpec::remaining(&it) == s@,
            IteratorSpec::decrease(&it) is Some,
        decreases IteratorSpec::decrease(&it)->0,
    {
        match it.next() {
            Some(c) => {
                assert(out@.push(c) + IteratorSpec::remaining(&it) =~= s@);
                out.push(c);
            },
            None => {
                assert(out@ =~= s@);
                return out;
            },
        }
    }
}

/// Relies on `String: FromIterator<char>`: the string of the given characters.
#[verifier::external_body]
pub(crate) fn string_of(c: &[char]) -> (r: String)
    ensures
        r@ == c@,
{
    c.iter().collect()
}

/// Appends the characters of `s`.
pub fn push_str(out: &mut Vec<char>, s: &str)
    ensures
        final(out)@ == old(out)@ + s@,
{
    let mut cs = chars_of(s);
    out.append(&mut cs);
}

/// Appends the decimal digits of `n`.
pub fn push_decimal(out: &mut Vec<char>, n: u64)
    ensures
        final(out)@ == old(out)@ + decimal(n as nat),
    decreases n,
{
    let ghost start = out@;
    if n >= 10 {
        push_decimal(out, n / 10);
    }
    let d: u64 = n % 10;
    let c = if d == 0 {
        '0'
    } else if d == 1 {
        '1'
    } else if d == 2 {
        '2'
    } else if d == 3 {
        '3'
    } else if d == 4 {
        '4'
    } else if d == 5 {
        '5'
    } else if d == 6 {
        '6'
    } else if d == 7 {
        '7'
    } else if d == 8 {
        '8'
    } else {
        '9'
    };
    assert(c == digit(d as int));
    out.push(c);
    assert(out@ =~= start + decimal(n as nat));
}

/// Appends a number in decimal.
pub fn push_number(out: &mut Vec<char>, n: i64)
    ensures
        final(out)@ == old(out)@ + number_text(n),
{
    if n < 0 {
        let m: u64 = if n == i64::MIN {
            9223372036854775808u64
        } else {
            (-n) as u64
        };
        let ghost start = out@;
        out.push('-');
        push_decimal(out, m);
        assert(out@ =~= start + number_text(n));
    } else {
        push_decimal(out, n as u64);
    }
}

/// Appends `s` between double quotes.
pub fn push_quoted(out: &mut Vec<char>, s: &String)
    ensures
        final(out)@ == old(out)@ + quoted(s@),
{
    let ghost start = out@;
    out.push('"');
    push_str(out, s.as_str());
    out.push('"');
    assert(out@ =~= start + quoted(s@));
}

proof fn lemma_items_step(l: Seq<Val>, i: int)
    requires
        0 <= i < l.len(),
    ensures
        items_text(l, i) == text(l[i]) + if i + 1 < l.len() {
            seq![','] + items_text(l, i + 1)
        } else {
            Seq::empty()
        },
{
}

impl JObject {
    /// Appends the printed form of this value.
    pub fn write_text(&self, out: &mut Vec<char>)
        ensures
            final(out)@ == old(out)@ + text(self.view()),
        decreases self,
    {
        broadcast use group_view_lemmas;

        let ghost start = out@;
        match self {
            JObject::Null => push_str(out, "[]"),
            JObject::Bool(b) => if *b {
                push_str(out, "true")
            } else {
                push_str(out, "false")
            },
            JObject::Number(n) => push_number(out, *n),
            JObject::String(s) => push_quoted(out, s),
            JObject::List(l) => {
                out.push('[');
                let ghost vs = views(l@);
                let mut i: usize = 0;
                while i < l.len()
                    invariant
                        i <= l.len(),
                        *self == JObject::List(*l),
                        vs == views(l@),
                        out@ + items_text(vs, i as int) + seq![']'] == start + text(self.view()),
                    decreases l.len() - i,
                {
                    proof {
                        assert(decreases_to!(*self => self->List_0));
                        assert(decreases_to!(*l => l@));
                        assert(decreases_to!(l@ => l@[i as int]));
                    }
                    let ghost before = out@;
                    l[i].write_text(out);
                    if i + 1 < l.len() {
                        out.push(',');
                    }
                    proof {
                        lemma_items_step(vs, i as int);
                        if i + 1 < l.len() {
                            assert(out@ + items_text(vs, i + 1) =~= before + items_text(vs, i as int));
                        } else {
                            assert(items_text(vs, i + 1) =~= Seq::<char>::empty());
                            assert(out@ + items_text(vs, i + 1) =~= before + items_text(vs, i as int));
                        }
                        assert(out@ + items_text(vs, i + 1) + seq![']'] =~= before + items_text(
                            vs,
                            i as int,
                        ) + seq![']']);
                    }
                    i += 1;
                }
                out.push(']');
                assert(out@ =~= start + text(self.view()));
            },
            JObject::Object(m) => {
                out.push('{');
                let ghost es = entries_view(m@);
                let mut i: usize = 0;
                while i < m.len()
                    invariant
                        i <= m.len(),
                        *self == JObject::Object(*m),
                        es == entries_view(m@),
                        out@ + entries_text(es, i as int) + seq!['}'] == start + text(self.view()),
                    decreases m.len() - i,
                {
                    proof {
                        assert(decreases_to!(*self => self->Object_0));
                        assert(decreases_to!(*m => m@));
                        assert(decreases_to!(m@ => m@[i as int]));
                        assert(decreases_to!(m@[i as int] => m@[i as int].1));
                    }
                    let ghost before = out@;
                    push_quoted(out, &m[i].0);
                    out.push(':');
                    m[i].1.write_text(out);
                    if i + 1 < m.len() {
                        out.push(',');
                    }
                    proof {
                        if i + 1 < m.len() {
                            assert(out@ + entries_text(es, i + 1) =~= before + entries_text(
                                es,
                                i as int,
                            ));
                        } else {
                            assert(entries_text(es, i + 1) =~= Seq::<char>::empty());
                            assert(out@ + entries_text(es, i + 1) =~= before + entries_text(
                                es,
                                i as int,
                            ));
                        }
                        assert(out@ + entries_text(es, i + 1) + seq!['}'] =~= before
                            + entries_text(es, i as int) + seq!['}']);
                    }
                    i += 1;
                }
                out.push('}');
                assert(out@ =~= start + text(self.view()));
            },
            JObject::Func { parameters, definition } => {
                push_str(out, "[\"f\",[");
                write_names(parameters, out);
                push_str(out, "],");
                definition.write_text(out);
                push_str(out, "]");
                assert(out@ =~= start + text(self.view()));
            },
            JObject::Macro { parameters, definition } => {
                push_str(out, "[\"macro\",[");
                write_names(parameters, out);
                push_str(out, "],");
                definition.write_text(out);
                push_str(out, "]");
                assert(out@ =~= start + text(self.view()));
            },
        }
    }

    /// The printed form of this value.
    pub fn to_text(&self) -> (r: String)
        ensures
            r@ == text(self.view()),
    {
        let mut out: Vec<char> = Vec::new();
        self.write_text(&mut out);
        assert(out@ =~= text(self.view()));
        string_of(out.as_slice())
    }
}

/// Appends parameter names, quoted and separated by commas.
fn write_names(p: &Vec<String>, out: &mut Vec<char>)
    ensures
        final(out)@ == old(out)@ + names_text(names_view(p@), 0),
{
    let ghost start = out@;
    let ghost ns = names_view(p@);
    let mut i: usize = 0;
    while i < p.len()
        invariant
            i <= p.len(),
            ns == names_view(p@),
            out@ + names_text(ns, i as int) == start + names_text(ns, 0),
        decreases p.len() - i,
    {
        let ghost before = out@;
        push_quoted(out, &p[i]);
        if i + 1 < p.len() {
            out.push(',');
        }
        proof {
            if i + 1 < p.len() {
                assert(out@ + names_text(ns, i + 1) =~= before + names_text(ns, i as int));
            } else {
                assert(names_text(ns, i + 1) =~= Seq::<char>::empty());
                assert(out@ + names_text(ns, i + 1) =~= before + names_text(ns, i as int));
            }
        }
        i += 1;
    }
    assert(names_text(ns, i as int) =~= Seq::<char>::empty());
    assert(out@ =~= start + names_text(ns, 0));
}

} // verus!
