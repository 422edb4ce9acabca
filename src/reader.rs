use vstd::prelude::*;

use crate::eval::{assoc_set, put_entry};
use crate::json::{entries_view, group_view_lemmas, views, JObject, Val};
use crate::text::chars_of;

verus! {

/// Why a text could not be read.
#[derive(Debug, Clone, Copy, PartialEq, Eq, Structural)]
pub enum ReadError {
    /// A string, list or map that the text does not close.
    Unterminated,
    /// A number that does not fit in 64 signed bits.
    NumberTooLarge,
}

/// Unicode white space, the characters that `char::is_whitespace` accepts.
pub open spec fn white(c: char) -> bool {
    let u = c as u32;
    ||| u == 0x20
    ||| 0x09 <= u <= 0x0d
    ||| u == 0x85
    ||| u == 0xa0
    ||| u == 0x1680
    ||| 0x2000 <= u <= 0x200a
    ||| u == 0x2028
    ||| u == 0x2029
    ||| u == 0x202f
    ||| u == 0x205f
    ||| u == 0x3000
}

/// Whether `c` is a decimal digit.
pub open spec fn is_digit(c: char) -> bool {
    '0' <= c <= '9'
}

/// The first position from `i` on that does not hold white space.
pub open spec fn ws_end(t: Seq<char>, i: int) -> int
    decreases t.len() - i,
{
    if 0 <= i < t.len() && white(t[i]) {
        ws_end(t, i + 1)
    } else {
        i
    }
}

/// The first position from `i` on that does not hold a digit.
pub open spec fn digits_end(t: Seq<char>, i: int) -> int
    decreases t.len() - i,
{
    if 0 <= i < t.len() && is_digit(t[i]) {
        digits_end(t, i + 1)
    } else {
        i
    }
}

/// The first position from `i` on that holds a double quote, or the end.
pub open spec fn quote_end(t: Seq<char>, i: int) -> int
    decreases t.len() - i,
{
    if 0 <= i < t.len() && t[i] != '"' {
        quote_end(t, i + 1)
    } else {
        i
    }
}

/// The number that the digits at positions `i` up to `k` spell.
pub open spec fn digits_value(t: Seq<char>, i: int, k: int) -> int
    decreases k - i,
{
    if k <= i {
        0
    } else {
        digits_value(t, i, k - 1) * 10 + (t[k - 1] as int - '0' as int)
    }
}

/// Whether the text holds `w` at position `i`.
pub open spec fn text_at(t: Seq<char>, i: int, w: Seq<char>) -> bool {
    0 <= i && i + w.len() <= t.len() && t.subrange(i, i + w.len()) == w
}

pub proof fn lemma_ws_end(t: Seq<char>, i: int)
    ensures
        ws_end(t, i) >= i,
        0 <= i <= t.len() ==> ws_end(t, i) <= t.len(),
    decreases t.len() - i,
{
    if 0 <= i < t.len() && white(t[i]) {
        lemma_ws_end(t, i + 1);
    }
}

pub proof fn lemma_quote_end(t: Seq<char>, i: int)
    ensures
        quote_end(t, i) >= i,
        0 <= i <= t.len() ==> quote_end(t, i) <= t.len(),
    decreases t.len() - i,
{
    if 0 <= i < t.len() && t[i] != '"' {
        lemma_quote_end(t, i + 1);
    }
}

/// The rest of a string whose opening quote stands before position `i`:
/// the position after its closing quote, and its characters.
pub open spec fn p_string(t: Seq<char>, i: int) -> Result<(int, Seq<char>), ReadError> {
    let j = quote_end(t, i);
    if j < t.len() {
        Ok((j + 1, t.subrange(i, j)))
    } else {
        Err(ReadError::Unterminated)
    }
}

/// The value that the text holds at position `i`, after white space, and
/// the position after it; `None` where no value starts there.
pub open spec fn p_value(t: Seq<char>, i: int) -> Result<(int, Option<Val>), ReadError>
    decreases t.len() - i, 0int,
{
    let j = ws_end(t, i);
    proof {
        lemma_ws_end(t, i);
    }
    if 0 <= j < t.len() && is_digit(t[j]) {
        let k = digits_end(t, j);
        let n = digits_value(t, j, k);
        if n > i64::MAX {
            Err(ReadError::NumberTooLarge)
        } else {
            Ok((k, Some(Val::Number(n as i64))))
        }
    } else if text_at(t, j, "null"@) {
        Ok((j + 4, Some(Val::Null)))
    } else if text_at(t, j, "true"@) {
        Ok((j + 4, Some(Val::Bool(true))))
    } else if text_at(t, j, "false"@) {
        Ok((j + 5, Some(Val::Bool(false))))
    } else if 0 <= j < t.len() && t[j] == '"' {
        match p_string(t, j + 1) {
            Ok((p, s)) => Ok((p, Some(Val::Str(s)))),
            Err(e) => Err(e),
        }
    } else if 0 <= i <= j < t.len() && t[j] == '[' {
        p_items(t, j + 1, Seq::empty())
    } else if 0 <= i <= j < t.len() && t[j] == '{' {
        open_map(t, j + 1)
    } else {
        Ok((j, None))
    }
}

/// The end of a list after its elements `acc`: its closing bracket, after white space.
pub open spec fn close_list(t: Seq<char>, p: int, acc: Seq<Val>) -> Result<
    (int, Option<Val>),
    ReadError,
> {
    let q = ws_end(t, p);
    if 0 <= q < t.len() && t[q] == ']' {
        Ok((q + 1, Some(Val::List(acc))))
    } else {
        Err(ReadError::Unterminated)
    }
}

/// The elements of a list from position `k` on, after the elements `acc`.
pub open spec fn p_items(t: Seq<char>, k: int, acc: Seq<Val>) -> Result<
    (int, Option<Val>),
    ReadError,
>
    decreases t.len() - k, 1int,
{
    if k < 0 || k > t.len() {
        Err(ReadError::Unterminated)
    } else {
        match p_value(t, k) {
            Err(e) => Err(e),
            Ok((p, None)) => close_list(t, p, acc),
            Ok((p, Some(v))) => {
                let q = ws_end(t, p);
                if k <= q < t.len() && t[q] == ',' {
                    p_items(t, q + 1, acc.push(v))
                } else {
                    close_list(t, q, acc.push(v))
                }
            },
        }
    }
}

/// The end of a map after its entries `acc`: its closing brace, after white space.
pub open spec fn close_map(t: Seq<char>, p: int, acc: Seq<(Seq<char>, Val)>) -> Result<
    (int, Option<Val>),
    ReadError,
> {
    let q = ws_end(t, p);
    if 0 <= q < t.len() && t[q] == '}' {
        Ok((q + 1, Some(Val::Object(acc))))
    } else {
        Err(ReadError::Unterminated)
    }
}

/// A map after its opening brace at `k - 1`: a closing brace after white
/// space makes it the empty map, else its entries follow.
pub open spec fn open_map(t: Seq<char>, k: int) -> Result<(int, Option<Val>), ReadError>
    decreases t.len() - k, 2int,
{
    let q = ws_end(t, k);
    if 0 <= q < t.len() && t[q] == '}' {
        Ok((q + 1, Some(Val::Object(Seq::empty()))))
    } else {
        p_entries(t, k, Seq::empty())
    }
}

/// The entries of a map from position `k` on, after the entries `acc`; a
/// later entry for a key replaces an earlier one.
pub open spec fn p_entries(t: Seq<char>, k: int, acc: Seq<(Seq<char>, Val)>) -> Result<
    (int, Option<Val>),
    ReadError,
>
    decreases t.len() - k, 1int,
{
    let j = ws_end(t, k);
    if !(0 <= k <= j < t.len() && t[j] == '"') {
        Ok((j, None))
    } else {
        match p_string(t, j + 1) {
            Err(e) => Err(e),
            Ok((p, key)) => {
                let colon_at = ws_end(t, p);
                let value_at = if 0 <= colon_at < t.len() && t[colon_at] == ':' {
                    colon_at + 1
                } else {
                    colon_at
                };
                if value_at <= k || value_at > t.len() {
                    Err(ReadError::Unterminated)
                } else {
                    match p_value(t, value_at) {
                        Err(e) => Err(e),
                        Ok((q, None)) => Ok((q, None)),
                        Ok((q, Some(v))) => {
                            let r = ws_end(t, q);
                            let acc2 = assoc_set(acc, key, v);
                            if k <= r < t.len() && t[r] == ',' {
                                p_entries(t, r + 1, acc2)
                            } else {
                                close_map(t, r, acc2)
                            }
                        },
                    }
                }
            },
        }
    }
}

/// What reading a whole text gives: the first value in it, or `Null` where
/// none starts it.
pub open spec fn read_v(t: Seq<char>) -> Result<Val, ReadError> {
    match p_value(t, 0) {
        Ok((_, Some(v))) => Ok(v),
        Ok((_, None)) => Ok(Val::Null),
        Err(e) => Err(e),
    }
}

/// Whether `c` is white space.
pub fn is_white(c: char) -> (r: bool)
    ensures
        r == white(c),
{
    let u = c as u32;
    u == 0x20 || (0x09 <= u && u <= 0x0d) || u == 0x85 || u == 0xa0 || u == 0x1680 || (0x2000 <= u
        && u <= 0x200a) || u == 0x2028 || u == 0x2029 || u == 0x202f || u == 0x205f || u == 0x3000
}

struct Parser {
    text: Vec<char>,
    i: usize,
}

/// The values of what a parse step gave.
pub open spec fn parsed(r: Result<Option<JObject>, ReadError>) -> Result<Option<Val>, ReadError> {
    match r {
        Ok(Some(j)) => Ok(Some(j.view())),
        Ok(None) => Ok(None),
        Err(e) => Err(e),
    }
}

/// The spec result of a parse step that ended at position `i` with `r`.
pub open spec fn step(i: usize, r: Result<Option<JObject>, ReadError>) -> Result<
    (int, Option<Val>),
    ReadError,
> {
    match parsed(r) {
        Ok(o) => Ok((i as int, o)),
        Err(e) => Err(e),
    }
}

impl Parser {
    spec fn wf(&self) -> bool {
        self.i <= self.text@.len() <= usize::MAX
    }

    /// The next character, if any.
    fn peek(&self) -> (r: Option<char>)
        ensures
            r == (if self.i < self.text@.len() {
                Some(self.text@[self.i as int])
            } else {
                None
            }),
    {
        if self.i < self.text.len() {
            Some(self.text[self.i])
        } else {
            None
        }
    }

    /// Whether the next character is `c`.
    fn next_is(&self, c: char) -> (r: bool)
        ensures
            r == (self.i < self.text@.len() && self.text@[self.i as int] == c),
    {
        self.i < self.text.len() && self.text[self.i] == c
    }

    /// Skips white space.
    fn ws(&mut self)
        requires
            old(self).wf(),
        ensures
            final(self).wf(),
            final(self).text == old(self).text,
            final(self).i == ws_end(old(self).text@, old(self).i as int),
    {
        proof {
            lemma_ws_end(self.text@, self.i as int);
        }
        while self.i < self.text.len() && is_white(self.text[self.i])
            invariant
                self.wf(),
                self.text == old(self).text,
                ws_end(self.text@, self.i as int) == ws_end(old(self).text@, old(self).i as int),
            decreases self.text@.len() - self.i,
        {
            self.i += 1;
        }
    }

    /// Whether the text holds `w` at the current position.
    fn looking_at(&self, w: &str) -> (r: bool)
        requires
            self.wf(),
        ensures
            r == text_at(self.text@, self.i as int, w@),
    {
        let cs = chars_of(w);
        if cs.len() > self.text.len() - self.i {
            return false;
        }
        let mut k: usize = 0;
        while k < cs.len()
            invariant
                self.wf(),
                cs@ == w@,
                cs.len() <= self.text.len() - self.i,
                k <= cs.len(),
                forall|m: int| 0 <= m < k ==> self.text@[self.i + m] == #[trigger] cs@[m],
            decreases cs.len() - k,
        {
            if self.text[self.i + k] != cs[k] {
                assert(self.text@.subrange(self.i as int, self.i + cs@.len())[k as int] != w@[k as int]);
                return false;
            }
            k += 1;
        }
        assert(self.text@.subrange(self.i as int, self.i + cs@.len()) =~= w@);
        true
    }

    /// A number: a run of digits.
    fn number(&mut self) -> (r: Result<Option<JObject>, ReadError>)
        requires
            old(self).wf(),
            old(self).i < old(self).text@.len(),
            is_digit(old(self).text@[old(self).i as int]),
        ensures
            final(self).wf(),
            final(self).text == old(self).text,
            final(self).i >= old(self).i,
            step(final(self).i, r) == ({
                let t = old(self).text@;
                let j = old(self).i as int;
                let k = digits_end(t, j);
                let n = digits_value(t, j, k);
                if n > i64::MAX {
                    Err(ReadError::NumberTooLarge)
                } else {
                    Ok((k, Some(Val::Number(n as i64))))
                }
            }),
    {
        let ghost t = self.text@;
        let ghost j = self.i as int;
        let mut acc: i64 = 0;
        while self.i < self.text.len() && '0' <= self.text[self.i] && self.text[self.i] <= '9'
            invariant
                self.wf(),
                self.text == old(self).text,
                t == self.text@,
                j == old(self).i,
                j <= self.i,
                digits_end(t, self.i as int) == digits_end(t, j),
                acc == digits_value(t, j, self.i as int),
                0 <= acc,
            decreases self.text@.len() - self.i,
        {
            let d = (self.text[self.i] as u32 - '0' as u32) as i64;
            if acc > 922337203685477580 || (acc == 922337203685477580 && d > 7) {
                proof {
                    lemma_digits_end(t, j);
                    lemma_digits_end(t, self.i as int);
                    lemma_digits_grow(t, j, self.i as int + 1, digits_end(t, j));
                }
                return Err(ReadError::NumberTooLarge);
            }
            acc = acc * 10 + d;
            self.i += 1;
        }
        Ok(Some(JObject::Number(acc)))
    }

    /// A string after its opening quote: its characters up to the closing quote.
    fn rest_of_string(&mut self) -> (r: Result<String, ReadError>)
        requires
            old(self).wf(),
        ensures
            final(self).wf(),
            final(self).text == old(self).text,
            final(self).i >= old(self).i,
            match p_string(old(self).text@, old(self).i as int) {
                Ok((p, s)) => r is Ok && r->Ok_0@ == s && final(self).i == p,
                Err(e) => r == Err::<String, ReadError>(e),
            },
    {
        let ghost t = self.text@;
        let start = self.i;
        while self.i < self.text.len() && self.text[self.i] != '"'
            invariant
                self.wf(),
                self.text == old(self).text,
                start <= self.i,
                start == old(self).i,
                t == self.text@,
                quote_end(t, self.i as int) == quote_end(t, start as int),
            decreases self.text@.len() - self.i,
        {
            self.i += 1;
        }
        if self.i >= self.text.len() {
            return Err(ReadError::Unterminated);
        }
        let s = crate::text::string_of(&self.text.as_slice()[start..self.i]);
        self.i += 1;
        Ok(s)
    }
}

pub proof fn lemma_digits_end(t: Seq<char>, i: int)
    ensures
        digits_end(t, i) >= i,
        forall|x: int| i <= x < digits_end(t, i) ==> is_digit(#[trigger] t[x]),
        0 <= i < t.len() && is_digit(t[i]) ==> digits_end(t, i) > i,
    decreases t.len() - i,
{
    if 0 <= i < t.len() && is_digit(t[i]) {
        lemma_digits_end(t, i + 1);
    }
}

/// Once a run of digits spells more than fits, every longer run does too.
proof fn lemma_digits_grow(t: Seq<char>, j: int, m: int, k: int)
    requires
        j < m <= k,
        forall|x: int| j <= x < k ==> is_digit(#[trigger] t[x]),
        digits_value(t, j, m) > i64::MAX,
    ensures
        digits_value(t, j, k) > i64::MAX,
    decreases k - m,
{
    if m < k {
        assert(digits_value(t, j, m + 1) >= digits_value(t, j, m));
        lemma_digits_grow(t, j, m + 1, k);
    }
}

impl Parser {
    /// The value at the current position, after white space.
    fn parse(&mut self) -> (r: Result<Option<JObject>, ReadError>)
        requires
            old(self).wf(),
        ensures
            final(self).wf(),
            final(self).text == old(self).text,
            final(self).i >= old(self).i,
            step(final(self).i, r) == p_value(old(self).text@, old(self).i as int),
        decreases old(self).text@.len() - old(self).i, 0int,
    {
        broadcast use group_view_lemmas;

        let ghost t = self.text@;
        let ghost i0 = self.i as int;
        proof {
            lemma_ws_end(t, i0);
            reveal_strlit("null");
            reveal_strlit("true");
            reveal_strlit("false");
        }
        self.ws();
        if let Some(c) = self.peek() {
            if '0' <= c && c <= '9' {
                return self.number();
            }
        }
        if self.looking_at("null") {
            self.i += 4;
            return Ok(Some(JObject::Null));
        }
        if self.looking_at("true") {
            self.i += 4;
            return Ok(Some(JObject::Bool(true)));
        }
        if self.looking_at("false") {
            self.i += 5;
            return Ok(Some(JObject::Bool(false)));
        }
        if self.next_is('"') {
            self.i += 1;
            match self.rest_of_string() {
                Ok(s) => Ok(Some(JObject::String(s))),
                Err(e) => Err(e),
            }
        } else if self.next_is('[') {
            self.i += 1;
            self.list()
        } else if self.next_is('{') {
            self.i += 1;
            self.map()
        } else {
            Ok(None)
        }
    }

    /// The closing bracket of a list with the elements `items`, after white space.
    fn close_list(&mut self, items: Vec<JObject>) -> (r: Result<Option<JObject>, ReadError>)
        requires
            old(self).wf(),
        ensures
            final(self).wf(),
            final(self).text == old(self).text,
            final(self).i >= old(self).i,
            step(final(self).i, r) == close_list(old(self).text@, old(self).i as int, views(items@)),
    {
        broadcast use group_view_lemmas;

        proof {
            lemma_ws_end(self.text@, self.i as int);
        }
        self.ws();
        if self.next_is(']') {
            self.i += 1;
            Ok(Some(JObject::List(items)))
        } else {
            Err(ReadError::Unterminated)
        }
    }

    /// The elements of a list after its opening bracket, up to its closing one.
    fn list(&mut self) -> (r: Result<Option<JObject>, ReadError>)
        requires
            old(self).wf(),
        ensures
            final(self).wf(),
            final(self).text == old(self).text,
            final(self).i >= old(self).i,
            step(final(self).i, r) == p_items(old(self).text@, old(self).i as int, Seq::empty()),
        decreases old(self).text@.len() - old(self).i, 1int,
    {
        let ghost t = self.text@;
        let ghost start = self.i as int;
        let mut builder: Vec<JObject> = Vec::new();
        assert(views(builder@) =~= Seq::empty());
        loop
            invariant
                self.wf(),
                self.text == old(self).text,
                t == self.text@,
                start == old(self).i,
                self.i >= start,
                p_items(t, start, Seq::empty()) == p_items(t, self.i as int, views(builder@)),
            decreases self.text@.len() - self.i,
        {
            match self.parse() {
                Err(e) => {
                    return Err(e);
                },
                Ok(None) => {
                    return self.close_list(builder);
                },
                Ok(Some(v)) => {
                    let ghost acc = views(builder@);
                    builder.push(v);
                    assert(views(builder@) =~= acc.push(v.view()));
                    proof {
                        lemma_ws_end(t, self.i as int);
                    }
                    self.ws();
                    if self.next_is(',') {
                        self.i += 1;
                    } else {
                        return self.close_list(builder);
                    }
                },
            }
        }
    }

    /// The closing brace of a map with the entries `entries`, after white space.
    fn close_map(&mut self, entries: Vec<(String, JObject)>) -> (r: Result<
        Option<JObject>,
        ReadError,
    >)
        requires
            old(self).wf(),
        ensures
            final(self).wf(),
            final(self).text == old(self).text,
            final(self).i >= old(self).i,
            step(final(self).i, r) == close_map(
                old(self).text@,
                old(self).i as int,
                entries_view(entries@),
            ),
    {
        broadcast use group_view_lemmas;

        proof {
            lemma_ws_end(self.text@, self.i as int);
        }
        self.ws();
        if self.next_is('}') {
            self.i += 1;
            Ok(Some(JObject::Object(entries)))
        } else {
            Err(ReadError::Unterminated)
        }
    }

    /// A map after its opening brace: the empty map, or its entries.
    fn map(&mut self) -> (r: Result<Option<JObject>, ReadError>)
        requires
            old(self).wf(),
        ensures
            final(self).wf(),
            final(self).text == old(self).text,
            final(self).i >= old(self).i,
            step(final(self).i, r) == open_map(old(self).text@, old(self).i as int),
        decreases old(self).text@.len() - old(self).i, 2int,
    {
        broadcast use group_view_lemmas;

        let ghost t = self.text@;
        proof {
            lemma_ws_end(t, self.i as int);
        }
        let mut q = self.i;
        while q < self.text.len() && is_white(self.text[q])
            invariant
                self.wf(),
                t == self.text@,
                self.i <= q <= self.text@.len(),
                ws_end(t, q as int) == ws_end(t, self.i as int),
            decreases self.text@.len() - q,
        {
            q += 1;
        }
        if q < self.text.len() && self.text[q] == '}' {
            self.i = q + 1;
            let empty: Vec<(String, JObject)> = Vec::new();
            assert(entries_view(empty@) =~= Seq::empty());
            return Ok(Some(JObject::Object(empty)));
        }
        self.entries()
    }

    /// The entries of a map after its opening brace, up to its closing one.
    fn entries(&mut self) -> (r: Result<Option<JObject>, ReadError>)
        requires
            old(self).wf(),
        ensures
            final(self).wf(),
            final(self).text == old(self).text,
            final(self).i >= old(self).i,
            step(final(self).i, r) == p_entries(old(self).text@, old(self).i as int, Seq::empty()),
        decreases old(self).text@.len() - old(self).i, 1int,
    {
        let ghost t = self.text@;
        let ghost start = self.i as int;
        let mut builder: Vec<(String, JObject)> = Vec::new();
        assert(entries_view(builder@) =~= Seq::empty());
        loop
            invariant
                self.wf(),
                self.text == old(self).text,
                t == self.text@,
                start == old(self).i,
                self.i >= start,
                p_entries(t, start, Seq::empty()) == p_entries(
                    t,
                    self.i as int,
                    entries_view(builder@),
                ),
            decreases self.text@.len() - self.i,
        {
            let ghost k = self.i as int;
            proof {
                lemma_ws_end(t, k);
            }
            self.ws();
            if !self.next_is('"') {
                return Ok(None);
            }
            self.i += 1;
            proof {
                lemma_quote_end(t, self.i as int);
            }
            let key = match self.rest_of_string() {
                Err(e) => {
                    return Err(e);
                },
                Ok(s) => s,
            };
            proof {
                lemma_ws_end(t, self.i as int);
            }
            self.ws();
            if self.next_is(':') {
                self.i += 1;
            }
            match self.parse() {
                Err(e) => {
                    return Err(e);
                },
                Ok(None) => {
                    return Ok(None);
                },
                Ok(Some(v)) => {
                    proof {
                        lemma_ws_end(t, self.i as int);
                    }
                    self.ws();
                    put_entry(&mut builder, key, v);
                    if self.next_is(',') {
                        self.i += 1;
                    } else {
                        return self.close_map(builder);
                    }
                },
            }
        }
    }
}

/// Reads the first value of `line`: `Null` where none starts it.
pub fn read(line: &str) -> (r: Result<JObject, ReadError>)
    ensures
        match r {
            Ok(j) => read_v(line@) == Ok::<Val, ReadError>(j.view()),
            Err(e) => read_v(line@) == Err::<Val, ReadError>(e),
        },
{
    let text = chars_of(line);
    let _ = text.len();
    let mut p = Parser { text, i: 0 };
    match p.parse() {
        Ok(Some(v)) => Ok(v),
        Ok(None) => Ok(JObject::Null),
        Err(e) => Err(e),
    }
}

/// The first value of `line`; `Null` where none starts it. Malformed text
/// stops the program, so it is left out here: [`read`] reports it.
pub fn parse(line: &str) -> (r: JObject)
    requires
        read_v(line@) is Ok,
    ensures
        read_v(line@) == Ok::<Val, ReadError>(r.view()),
{
    match read(line) {
        Ok(j) => j,
        Err(e) => {
            assert(read_v(line@) == Err::<Val, ReadError>(e));
            JObject::Null
        },
    }
}

} // verus!
