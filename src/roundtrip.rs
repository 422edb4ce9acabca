use vstd::prelude::*;

use crate::eval::assoc_set;
use crate::json::{unique_keys, Val};
use crate::reader::{
    digits_end, digits_value, is_digit, p_entries, p_items, p_string, p_value,
    quote_end, read_v, text_at, ws_end,
};
use crate::text::{decimal, digit, entries_text, items_text, quoted, text};

verus! {

/// Whether printing `v` and reading the text back gives `v` again: a value
/// built from booleans, numbers, strings, lists and maps, with no negative
/// number (the reader takes no sign), no double quote in a string or a key
/// (strings have no escapes), no key twice in one map, and no `Null`
/// (printed as `[]`, the empty list).
pub open spec fn readable(v: Val) -> bool
    decreases v,
{
    match v {
        Val::Bool(_) => true,
        Val::Number(n) => n >= 0,
        Val::Str(s) => !s.contains('"'),
        Val::List(l) => forall|i: int| 0 <= i < l.len() ==> readable(#[trigger] l[i]),
        Val::Object(m) => {
            &&& unique_keys(m)
            &&& forall|i: int| 0 <= i < m.len() ==> !(#[trigger] m[i]).0.contains('"')
            &&& forall|i: int|
                0 <= i < m.len() ==> {
                    proof {
                        assert(decreases_to!(m => m[i]));
                    }
                    readable(#[trigger] m[i].1)
                }
        },
        _ => false,
    }
}

proof fn lemma_digit(d: int)
    requires
        0 <= d < 10,
    ensures
        is_digit(digit(d)),
        digit(d) as int - '0' as int == d,
{
    let s = seq!['0', '1', '2', '3', '4', '5', '6', '7', '8', '9'];
    assert(digit(d) == s[d]);
    if d == 0 {
        assert(s[0] == '0');
    } else if d == 1 {
        assert(s[1] == '1');
    } else if d == 2 {
        assert(s[2] == '2');
    } else if d == 3 {
        assert(s[3] == '3');
    } else if d == 4 {
        assert(s[4] == '4');
    } else if d == 5 {
        assert(s[5] == '5');
    } else if d == 6 {
        assert(s[6] == '6');
    } else if d == 7 {
        assert(s[7] == '7');
    } else if d == 8 {
        assert(s[8] == '8');
    } else {
        assert(s[9] == '9');
    }
}

/// The decimal digits of `n` are digits, and `t` holding them at `i` spells `n`.
proof fn lemma_decimal(t: Seq<char>, i: int, n: nat)
    requires
        0 <= i,
        i + decimal(n).len() <= t.len(),
        t.subrange(i, i + decimal(n).len()) == decimal(n),
    ensures
        decimal(n).len() >= 1,
        forall|x: int| 0 <= x < decimal(n).len() ==> is_digit(#[trigger] decimal(n)[x]),
        digits_value(t, i, i + decimal(n).len()) == n,
    decreases n,
{
    let s = decimal(n);
    let l = s.len() as int;
    if n < 10 {
        lemma_digit(n as int);
        assert(t[i] == t.subrange(i, i + l)[0]);
        assert(digits_value(t, i, i) == 0);
        assert(digits_value(t, i, i + 1) == digits_value(t, i, i) * 10 + (t[i] as int - '0' as int));
    } else {
        let p = decimal(n / 10);
        let pl = p.len() as int;
        assert(s == p.push(digit((n % 10) as int)));
        assert(t.subrange(i, i + pl) =~= t.subrange(i, i + l).subrange(0, pl));
        assert(s.subrange(0, pl) =~= p);
        lemma_decimal(t, i, n / 10);
        lemma_digit((n % 10) as int);
        assert(t[i + pl] == t.subrange(i, i + l)[pl]);
        assert forall|x: int| 0 <= x < l implies is_digit(#[trigger] s[x]) by {
            if x < pl {
                assert(s[x] == p[x]);
            }
        }
        assert(digits_value(t, i, i + l) == digits_value(t, i, i + pl) * 10 + (t[i + pl] as int
            - '0' as int));
    }
}

/// The run of digits from `i` ends at `k` where the digits stop.
proof fn lemma_digits_end_at(t: Seq<char>, i: int, k: int)
    requires
        0 <= i <= k <= t.len(),
        forall|x: int| i <= x < k ==> is_digit(#[trigger] t[x]),
        k == t.len() || !is_digit(t[k]),
    ensures
        digits_end(t, i) == k,
    decreases k - i,
{
    if i < k {
        lemma_digits_end_at(t, i + 1, k);
    }
}

/// The text from `i` up to a double quote at `k` holds none before it.
proof fn lemma_quote_end_at(t: Seq<char>, i: int, k: int)
    requires
        0 <= i <= k < t.len(),
        forall|x: int| i <= x < k ==> #[trigger] t[x] != '"',
        t[k] == '"',
    ensures
        quote_end(t, i) == k,
    decreases k - i,
{
    if i < k {
        lemma_quote_end_at(t, i + 1, k);
    }
}

/// A word does not stand where its first character does not.
proof fn lemma_not_at(t: Seq<char>, i: int, w: Seq<char>)
    requires
        0 <= i < t.len(),
        w.len() > 0,
        t[i] != w[0],
    ensures
        !text_at(t, i, w),
{
    if text_at(t, i, w) {
        assert(t.subrange(i, i + w.len())[0] == t[i]);
    }
}

/// The parts of a text that holds `a + b` at `k`.
proof fn lemma_split(t: Seq<char>, k: int, a: Seq<char>, b: Seq<char>)
    requires
        0 <= k,
        k + a.len() + b.len() <= t.len(),
        t.subrange(k, k + a.len() + b.len()) == a + b,
    ensures
        t.subrange(k, k + a.len()) == a,
        t.subrange(k + a.len(), k + a.len() + b.len()) == b,
        forall|x: int| 0 <= x < b.len() ==> t[k + a.len() + x] == #[trigger] b[x],
        forall|x: int| 0 <= x < a.len() ==> t[k + x] == #[trigger] a[x],
{
    let e = k + a.len() + b.len();
    assert forall|x: int| 0 <= x < a.len() implies t[k + x] == #[trigger] a[x] by {
        assert((a + b)[x] == a[x]);
        assert(t.subrange(k, e)[x] == t[k + x]);
    }
    assert forall|x: int| 0 <= x < b.len() implies t[k + a.len() + x] == #[trigger] b[x] by {
        assert((a + b)[a.len() + x] == b[x]);
        assert(t.subrange(k, e)[a.len() + x] == t[k + a.len() + x]);
    }
    assert(t.subrange(k, k + a.len()) =~= a);
    assert(t.subrange(k + a.len(), k + a.len() + b.len()) =~= b);
}

/// Nothing that starts a printed value is white space, and only a number starts with a digit.
proof fn lemma_starts(t: Seq<char>, i: int, c: char)
    requires
        0 <= i < t.len(),
        t[i] == c,
        c == '"' || c == '[' || c == '{' || c == ']' || c == '}' || c == ',' || c == ':' || c == 't'
            || c == 'f',
    ensures
        ws_end(t, i) == i,
        !is_digit(c),
{
}

/// Reading the text of a readable value that no digit follows gives the value back.
proof fn lemma_read_value(t: Seq<char>, i: int, v: Val)
    requires
        readable(v),
        0 <= i,
        i + text(v).len() <= t.len(),
        t.subrange(i, i + text(v).len()) == text(v),
        i + text(v).len() == t.len() || !is_digit(t[i + text(v).len()]),
    ensures
        p_value(t, i) == Ok::<(int, Option<Val>), crate::reader::ReadError>(
            (i + text(v).len(), Some(v)),
        ),
    decreases v, 0nat,
{
    let s = text(v);
    let n = s.len() as int;
    reveal_strlit("null");
    reveal_strlit("true");
    reveal_strlit("false");
    match v {
        Val::Bool(b) => {
            lemma_split(t, i, s, Seq::empty());
            if b {
                assert(s == "true"@);
                assert(s[0] == 't');
                assert(t[i + 0] == s[0]);
                lemma_starts(t, i, 't');
                lemma_not_at(t, i, "null"@);
                assert(t.subrange(i, i + 4) == "true"@);
            } else {
                assert(s == "false"@);
                assert(s[0] == 'f');
                assert(t[i + 0] == s[0]);
                lemma_starts(t, i, 'f');
                lemma_not_at(t, i, "null"@);
                lemma_not_at(t, i, "true"@);
                assert(t.subrange(i, i + 5) == "false"@);
            }
        },
        Val::Number(x) => {
            assert(s == decimal(x as nat));
            lemma_decimal(t, i, x as nat);
            lemma_split(t, i, s, Seq::empty());
            assert forall|y: int| i <= y < i + n implies is_digit(#[trigger] t[y]) by {
                assert(t[i + (y - i)] == s[y - i]);
            }
            lemma_digits_end_at(t, i, i + n);
            assert(is_digit(t[i]));
        },
        Val::Str(c) => {
            let cl = c.len() as int;
            assert(s == seq!['"'] + c + seq!['"']);
            lemma_split(t, i, s, Seq::empty());
            assert(t[i + 0] == s[0]);
            lemma_starts(t, i, '"');
            lemma_not_at(t, i, "null"@);
            lemma_not_at(t, i, "true"@);
            lemma_not_at(t, i, "false"@);
            assert forall|x: int| i + 1 <= x < i + 1 + cl implies #[trigger] t[x] != '"' by {
                assert(t[i + (x - i)] == s[x - i]);
                assert(s[x - i] == c[x - i - 1]);
                assert(c.contains(c[x - i - 1]));
            }
            assert(t[i + (cl + 1)] == s[cl + 1]);
            lemma_quote_end_at(t, i + 1, i + 1 + cl);
            assert(t.subrange(i + 1, i + 1 + cl) =~= c) by {
                assert forall|x: int| 0 <= x < cl implies t.subrange(i + 1, i + 1 + cl)[x] == c[x] by {
                    assert(t[i + (x + 1)] == s[x + 1]);
                }
            }
        },
        Val::List(l) => {
            let it = items_text(l, 0);
            assert(s == seq!['['] + (it + seq![']']));
            lemma_split(t, i, seq!['['], it + seq![']']);
            assert(t[i + 0] == seq!['['][0]);
            lemma_starts(t, i, '[');
            lemma_not_at(t, i, "null"@);
            lemma_not_at(t, i, "true"@);
            lemma_not_at(t, i, "false"@);
            lemma_read_items(t, i + 1, l, 0);
            assert(l.subrange(0, 0) =~= Seq::<Val>::empty());
        },
        Val::Object(m) => {
            let et = entries_text(m, 0);
            assert(s == seq!['{'] + (et + seq!['}']));
            lemma_split(t, i, seq!['{'], et + seq!['}']);
            assert(t[i + 0] == seq!['{'][0]);
            lemma_starts(t, i, '{');
            lemma_not_at(t, i, "null"@);
            lemma_not_at(t, i, "true"@);
            lemma_not_at(t, i, "false"@);
            assert(t[i + 1 + 0] == (et + seq!['}'])[0]);
            if m.len() == 0 {
                assert(et =~= Seq::<char>::empty());
                lemma_starts(t, i + 1, '}');
                assert(m =~= Seq::<(Seq<char>, Val)>::empty());
            } else {
                assert(et[0] == '"');
                lemma_starts(t, i + 1, '"');
                lemma_read_entries(t, i + 1, m, 0);
                assert(m.subrange(0, 0) =~= Seq::<(Seq<char>, Val)>::empty());
            }
        },
        _ => {},
    }
}

/// Reading the printed items of `l` from index `j` on, and the closing
/// bracket, after the items before `j`, gives the list.
proof fn lemma_read_items(t: Seq<char>, k: int, l: Seq<Val>, j: int)
    requires
        0 <= j <= l.len(),
        forall|x: int| 0 <= x < l.len() ==> readable(#[trigger] l[x]),
        0 <= k,
        k + items_text(l, j).len() + 1 <= t.len(),
        t.subrange(k, k + items_text(l, j).len() + 1) == items_text(l, j) + seq![']'],
    ensures
        p_items(t, k, l.subrange(0, j)) == Ok::<(int, Option<Val>), crate::reader::ReadError>(
            (k + items_text(l, j).len() + 1, Some(Val::List(l))),
        ),
    decreases l, l.len() - j,
{
    reveal_strlit("null");
    reveal_strlit("true");
    reveal_strlit("false");
    let it = items_text(l, j);
    let acc = l.subrange(0, j);
    if j == l.len() {
        assert(it =~= Seq::<char>::empty());
        lemma_split(t, k, it, seq![']']);
        assert(t[k + it.len() + 0] == seq![']'][0]);
        lemma_starts(t, k, ']');
        lemma_not_at(t, k, "null"@);
        lemma_not_at(t, k, "true"@);
        lemma_not_at(t, k, "false"@);
        assert(p_value(t, k) == Ok::<(int, Option<Val>), crate::reader::ReadError>((k, None)));
        assert(acc =~= l);
    } else {
        let e = text(l[j]);
        let el = e.len() as int;
        let rest = if j + 1 < l.len() {
            seq![','] + items_text(l, j + 1)
        } else {
            Seq::empty()
        };
        assert(it == e + rest);
        assert(it + seq![']'] =~= e + (rest + seq![']']));
        lemma_split(t, k, e, rest + seq![']']);
        let q = k + el;
        assert(t[q] == (rest + seq![']'])[0]);
        assert(decreases_to!(l => l[j]));
        lemma_read_value(t, k, l[j]);
        assert(acc.push(l[j]) =~= l.subrange(0, j + 1));
        if j + 1 < l.len() {
            let it2 = items_text(l, j + 1);
            assert(t[q] == ',');
            lemma_starts(t, q, ',');
            assert(rest + seq![']'] =~= seq![','] + (it2 + seq![']']));
            lemma_split(t, q, seq![','], it2 + seq![']']);
            lemma_read_items(t, q + 1, l, j + 1);
        } else {
            assert(rest =~= Seq::<char>::empty());
            assert(t[q] == ']');
            lemma_starts(t, q, ']');
            assert(l.subrange(0, j + 1) =~= l);
        }
    }
}

/// Setting a key that no entry has adds an entry at the end.
proof fn lemma_set_new_key<V>(s: Seq<(Seq<char>, V)>, k: Seq<char>, v: V)
    requires
        forall|x: int| 0 <= x < s.len() ==> (#[trigger] s[x]).0 != k,
    ensures
        assoc_set(s, k, v) == s.push((k, v)),
{
}

/// Reading the printed entries of `m` from index `j` on, and the closing
/// brace, after the entries before `j`, gives the map.
proof fn lemma_read_entries(t: Seq<char>, k: int, m: Seq<(Seq<char>, Val)>, j: int)
    requires
        0 <= j < m.len(),
        unique_keys(m),
        forall|x: int| 0 <= x < m.len() ==> !(#[trigger] m[x]).0.contains('"'),
        forall|x: int| 0 <= x < m.len() ==> readable(#[trigger] m[x].1),
        0 <= k,
        k + entries_text(m, j).len() + 1 <= t.len(),
        t.subrange(k, k + entries_text(m, j).len() + 1) == entries_text(m, j) + seq!['}'],
    ensures
        p_entries(t, k, m.subrange(0, j)) == Ok::<(int, Option<Val>), crate::reader::ReadError>(
            (k + entries_text(m, j).len() + 1, Some(Val::Object(m))),
        ),
    decreases m, m.len() - j,
{
    let et = entries_text(m, j);
    let acc = m.subrange(0, j);
    let key = m[j].0;
    let kl = key.len() as int;
    let e = text(m[j].1);
    let el = e.len() as int;
    let rest = if j + 1 < m.len() {
        seq![','] + entries_text(m, j + 1)
    } else {
        Seq::empty()
    };
    assert(et == quoted(key) + seq![':'] + e + rest);
    let head = seq!['"'] + key + seq!['"'] + seq![':'];
    assert(et + seq!['}'] =~= head + (e + (rest + seq!['}'])));
    lemma_split(t, k, head, e + (rest + seq!['}']));
    let value_at = k + kl + 3;
    lemma_split(t, value_at, e, rest + seq!['}']);
    // the key
    assert(t[k] == head[0]);
    lemma_starts(t, k, '"');
    assert forall|x: int| k + 1 <= x < k + 1 + kl implies #[trigger] t[x] != '"' by {
        assert(t[k + (x - k)] == head[x - k]);
        assert(head[x - k] == key[x - k - 1]);
        assert(key.contains(key[x - k - 1]));
    }
    assert(t[k + (kl + 1)] == head[kl + 1]);
    lemma_quote_end_at(t, k + 1, k + 1 + kl);
    assert(t.subrange(k + 1, k + 1 + kl) =~= key) by {
        assert forall|x: int| 0 <= x < kl implies t.subrange(k + 1, k + 1 + kl)[x] == key[x] by {
            assert(t[k + (x + 1)] == head[x + 1]);
        }
    }
    assert(p_string(t, k + 1) == Ok::<(int, Seq<char>), crate::reader::ReadError>((k + 2 + kl, key)));
    // the colon
    assert(t[k + (kl + 2)] == head[kl + 2]);
    lemma_starts(t, k + kl + 2, ':');
    // the value
    let q = value_at + el;
    assert(t[q] == (rest + seq!['}'])[0]);
    assert(decreases_to!(m => m[j]));
    assert(decreases_to!(m[j] => m[j].1));
    lemma_read_value(t, value_at, m[j].1);
    lemma_set_new_key(acc, key, m[j].1);
    assert(acc.push((key, m[j].1)) =~= m.subrange(0, j + 1));
    if j + 1 < m.len() {
        let et2 = entries_text(m, j + 1);
        assert(t[q] == ',');
        lemma_starts(t, q, ',');
        assert(rest + seq!['}'] =~= seq![','] + (et2 + seq!['}']));
        lemma_split(t, q, seq![','], et2 + seq!['}']);
        lemma_read_entries(t, q + 1, m, j + 1);
    } else {
        assert(rest =~= Seq::<char>::empty());
        assert(t[q] == '}');
        lemma_starts(t, q, '}');
        assert(m.subrange(0, j + 1) =~= m);
    }
}

/// Printing a readable value and reading the text back gives the value.
pub proof fn lemma_print_then_read(v: Val)
    requires
        readable(v),
    ensures
        read_v(text(v)) == Ok::<Val, crate::reader::ReadError>(v),
{
    let t = text(v);
    assert(t.subrange(0, t.len() as int) =~= t);
    lemma_read_value(t, 0, v);
}

} // verus!
