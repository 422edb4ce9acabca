use vstd::prelude::*;

pub use crate::reader::parse;

verus! {

/// The mathematical value of a [`JObject`]: the same tree, with text as
/// sequences of characters and lists as sequences.
pub enum Val {
    Null,
    Bool(bool),
    Number(i64),
    Str(Seq<char>),
    List(Seq<Val>),
    /// Key and value pairs; see [`well_formed`].
    Object(Seq<(Seq<char>, Val)>),
    Func { params: Seq<Seq<char>>, body: Box<Val> },
    Macro { params: Seq<Seq<char>>, body: Box<Val> },
}

/// A value of the language: data and code are the same tree.
#[derive(Debug, PartialEq, Eq)]
pub enum JObject {
    Null,
    Bool(bool),
    Number(i64),
    String(String),
    List(Vec<JObject>),
    /// A mapping from text keys to values, one entry per key when [`well_formed`].
    Object(Vec<(String, JObject)>),
    Func { parameters: Vec<String>, definition: Box<JObject> },
    Macro { parameters: Vec<String>, definition: Box<JObject> },
}

/// Whether no two entries of `m` have the same key.
pub open spec fn unique_keys(m: Seq<(Seq<char>, Val)>) -> bool {
    forall|a: int, b: int| 0 <= a < b < m.len() ==> m[a].0 != m[b].0
}

/// Whether every map in `v` has each key once: the validity of a value.
/// Reading text, `insert` and evaluating a map keep it.
pub open spec fn well_formed(v: Val) -> bool
    decreases v,
{
    match v {
        Val::List(l) => forall|i: int| 0 <= i < l.len() ==> well_formed(#[trigger] l[i]),
        Val::Object(m) => {
            &&& unique_keys(m)
            &&& forall|i: int|
                0 <= i < m.len() ==> {
                    proof {
                        assert(decreases_to!(m => m[i]));
                    }
                    well_formed(#[trigger] m[i].1)
                }
        },
        Val::Func { body, .. } => well_formed(*body),
        Val::Macro { body, .. } => well_formed(*body),
        _ => true,
    }
}

/// The text of each name.
pub open spec fn names_view(v: Seq<String>) -> Seq<Seq<char>> {
    v.map_values(|s: String| s@)
}

/// The value of each element.
pub open spec fn views(s: Seq<JObject>) -> Seq<Val> {
    Seq::new(s.len(), |i: int| s[i].view())
}

/// The key text and value of each entry.
pub open spec fn entries_view(s: Seq<(String, JObject)>) -> Seq<(Seq<char>, Val)> {
    Seq::new(s.len(), |i: int| (s[i].0@, s[i].1.view()))
}

impl JObject {
    /// The mathematical value of this tree.
    pub open spec fn view(&self) -> Val
        decreases self,
    {
        match self {
            JObject::Null => Val::Null,
            JObject::Bool(b) => Val::Bool(*b),
            JObject::Number(n) => Val::Number(*n),
            JObject::String(s) => Val::Str(s@),
            JObject::List(l) => Val::List(
                Seq::new(l@.len(), |i: int| if 0 <= i < l@.len() { l@[i].view() } else { Val::Null }),
            ),
            JObject::Object(m) => Val::Object(
                Seq::new(
                    m@.len(),
                    |i: int|
                        if 0 <= i < m@.len() {
                            (m@[i].0@, m@[i].1.view())
                        } else {
                            (Seq::empty(), Val::Null)
                        },
                ),
            ),
            JObject::Func { parameters, definition } => Val::Func {
                params: names_view(parameters@),
                body: Box::new(definition.view()),
            },
            JObject::Macro { parameters, definition } => Val::Macro {
                params: names_view(parameters@),
                body: Box::new(definition.view()),
            },
        }
    }
}

pub broadcast proof fn lemma_list_view(l: Vec<JObject>)
    ensures
        #[trigger] JObject::List(l).view() == Val::List(views(l@)),
{
    assert(JObject::List(l).view()->List_0 =~= views(l@));
}

pub broadcast proof fn lemma_object_view(m: Vec<(String, JObject)>)
    ensures
        #[trigger] JObject::Object(m).view() == Val::Object(entries_view(m@)),
{
    assert(JObject::Object(m).view()->Object_0 =~= entries_view(m@));
}

pub broadcast group group_view_lemmas {
    lemma_list_view,
    lemma_object_view,
}

/// A copy of `s`, element by element.
pub fn copy_strings(s: &Vec<String>) -> (r: Vec<String>)
    ensures
        names_view(r@) == names_view(s@),
{
    let mut out: Vec<String> = Vec::new();
    let mut i: usize = 0;
    while i < s.len()
        invariant
            i <= s.len(),
            out@.len() == i,
            forall|j: int| 0 <= j < i ==> #[trigger] out@[j]@ == s@[j]@,
        decreases s.len() - i,
    {
        out.push(s[i].clone());
        i += 1;
    }
    assert(names_view(out@) =~= names_view(s@));
    out
}

/// A copy of the elements of `l` from index `start` on.
pub fn copy_from(l: &Vec<JObject>, start: usize) -> (r: Vec<JObject>)
    requires
        start <= l.len(),
    ensures
        views(r@) == views(l@).subrange(start as int, l@.len() as int),
{
    let mut out: Vec<JObject> = Vec::new();
    let mut i: usize = start;
    while i < l.len()
        invariant
            start <= i <= l.len(),
            out@.len() == i - start,
            forall|j: int| 0 <= j < i - start ==> #[trigger] out@[j].view() == l@[j + start].view(),
        decreases l.len() - i,
    {
        out.push(l[i].copy());
        i += 1;
    }
    assert(views(out@) =~= views(l@).subrange(start as int, l@.len() as int));
    out
}

impl JObject {
    /// A copy of the whole tree.
    pub fn copy(&self) -> (r: JObject)
        ensures
            r.view() == self.view(),
        decreases self,
    {
        broadcast use group_view_lemmas;

        match self {
            JObject::Null => JObject::Null,
            JObject::Bool(b) => JObject::Bool(*b),
            JObject::Number(n) => JObject::Number(*n),
            JObject::String(s) => JObject::String(s.clone()),
            JObject::List(l) => {
                let mut out: Vec<JObject> = Vec::new();
                let mut i: usize = 0;
                while i < l.len()
                    invariant
                        i <= l.len(),
                        *self == JObject::List(*l),
                        out@.len() == i,
                        forall|j: int| 0 <= j < i ==> #[trigger] out@[j].view() == l@[j].view(),
                    decreases l.len() - i,
                {
                    proof {
                        assert(decreases_to!(*self => self->List_0));
                        assert(decreases_to!(*l => l@));
                        assert(decreases_to!(l@ => l@[i as int]));
                    }
                    out.push(l[i].copy());
                    i += 1;
                }
                assert(views(out@) =~= views(l@));
                JObject::List(out)
            },
            JObject::Object(m) => {
                let mut out: Vec<(String, JObject)> = Vec::new();
                let mut i: usize = 0;
                while i < m.len()
                    invariant
                        i <= m.len(),
                        *self == JObject::Object(*m),
                        out@.len() == i,
                        forall|j: int|
                            0 <= j < i ==> (#[trigger] out@[j]).0@ == m@[j].0@ && out@[j].1.view()
                                == m@[j].1.view(),
                    decreases m.len() - i,
                {
                    proof {
                        assert(decreases_to!(*self => self->Object_0));
                        assert(decreases_to!(*m => m@));
                        assert(decreases_to!(m@ => m@[i as int]));
                        assert(decreases_to!(m@[i as int] => m@[i as int].1));
                    }
                    let k = m[i].0.clone();
                    let v = m[i].1.copy();
                    out.push((k, v));
                    i += 1;
                }
                assert(entries_view(out@) =~= entries_view(m@));
                JObject::Object(out)
            },
            JObject::Func { parameters, definition } => {
                let b = definition.copy();
                JObject::Func { parameters: copy_strings(parameters), definition: Box::new(b) }
            },
            JObject::Macro { parameters, definition } => {
                let b = definition.copy();
                JObject::Macro { parameters: copy_strings(parameters), definition: Box::new(b) }
            },
        }
    }
}

/// The name of the kind of a value.
pub open spec fn kind_name(v: Val) -> Seq<char> {
    match v {
        Val::Null => "Null"@,
        Val::Bool(_) => "Bool"@,
        Val::Number(_) => "Number"@,
        Val::Str(_) => "String"@,
        Val::List(_) => "List"@,
        Val::Object(_) => "Map"@,
        Val::Func { .. } => "Func"@,
        Val::Macro { .. } => "Macro"@,
    }
}

/// Owned copies of the names in `arguments`.
fn owned_names(arguments: &Vec<&str>) -> (r: Vec<String>)
    ensures
        r@.len() == arguments@.len(),
        forall|i: int| 0 <= i < r@.len() ==> #[trigger] r@[i]@ == arguments@[i]@,
{
    let mut out: Vec<String> = Vec::new();
    let mut i: usize = 0;
    while i < arguments.len()
        invariant
            i <= arguments.len(),
            out@.len() == i,
            forall|j: int| 0 <= j < i ==> #[trigger] out@[j]@ == arguments@[j]@,
        decreases arguments.len() - i,
    {
        out.push(arguments[i].to_string());
        i += 1;
    }
    out
}

impl JObject {
    /// A function with the given parameter names and body.
    pub fn new_func(arguments: Vec<&str>, body: JObject) -> (r: JObject)
        ensures
            r.view() == (Val::Func {
                params: arguments@.map_values(|a: &str| a@),
                body: Box::new(body.view()),
            }),
    {
        let parameters = owned_names(&arguments);
        let r = JObject::Func { parameters, definition: Box::new(body) };
        assert(names_view(parameters@) =~= arguments@.map_values(|a: &str| a@));
        r
    }

    /// A macro with the given parameter names and body.
    pub fn new_macro(arguments: Vec<&str>, body: JObject) -> (r: JObject)
        ensures
            r.view() == (Val::Macro {
                params: arguments@.map_values(|a: &str| a@),
                body: Box::new(body.view()),
            }),
    {
        let parameters = owned_names(&arguments);
        let r = JObject::Macro { parameters, definition: Box::new(body) };
        assert(names_view(parameters@) =~= arguments@.map_values(|a: &str| a@));
        r
    }

    /// The name of the kind of this value.
    pub fn typename(&self) -> (r: String)
        ensures
            r@ == kind_name(self.view()),
    {
        let name = match self {
            JObject::Null => "Null",
            JObject::Bool(_) => "Bool",
            JObject::Number(_) => "Number",
            JObject::String(_) => "String",
            JObject::List(_) => "List",
            JObject::Object(_) => "Map",
            JObject::Func { .. } => "Func",
            JObject::Macro { .. } => "Macro",
        };
        name.to_string()
    }
}

/// Values that have a natural form as a [`JObject`].
pub trait ToJObject {
    spec fn as_val(&self) -> Val;

    fn to_jobject(&self) -> (r: JObject)
        ensures
            r.view() == self.as_val(),
    ;
}

impl ToJObject for bool {
    open spec fn as_val(&self) -> Val {
        Val::Bool(*self)
    }

    fn to_jobject(&self) -> (r: JObject) {
        JObject::Bool(*self)
    }
}

impl ToJObject for i64 {
    open spec fn as_val(&self) -> Val {
        Val::Number(*self)
    }

    fn to_jobject(&self) -> (r: JObject) {
        JObject::Number(*self)
    }
}

impl ToJObject for &str {
    open spec fn as_val(&self) -> Val {
        Val::Str(self@)
    }

    fn to_jobject(&self) -> (r: JObject) {
        JObject::String((*self).to_string())
    }
}

impl ToJObject for str {
    open spec fn as_val(&self) -> Val {
        Val::Str(self@)
    }

    fn to_jobject(&self) -> (r: JObject) {
        JObject::String(self.to_string())
    }
}

impl ToJObject for String {
    open spec fn as_val(&self) -> Val {
        Val::Str(self@)
    }

    fn to_jobject(&self) -> (r: JObject) {
        JObject::String(self.clone())
    }
}

impl ToJObject for Vec<JObject> {
    open spec fn as_val(&self) -> Val {
        Val::List(views(self@))
    }

    fn to_jobject(&self) -> (r: JObject) {
        broadcast use group_view_lemmas;

        let items = copy_from(self, 0);
        assert(views(self@).subrange(0, self@.len() as int) =~= views(self@));
        JObject::List(items)
    }
}

/// A list of the given items.
pub fn new_list<T: ToJObject>(xs: &[T]) -> (r: JObject)
    ensures
        r.view() == Val::List(Seq::new(xs@.len(), |i: int| xs@[i].as_val())),
{
    broadcast use group_view_lemmas;

    let mut out: Vec<JObject> = Vec::new();
    let mut i: usize = 0;
    while i < xs.len()
        invariant
            i <= xs@.len(),
            out@.len() == i,
            forall|j: int| 0 <= j < i ==> #[trigger] out@[j].view() == xs@[j].as_val(),
        decreases xs@.len() - i,
    {
        out.push(xs[i].to_jobject());
        i += 1;
    }
    assert(views(out@) =~= Seq::new(xs@.len(), |i: int| xs@[i].as_val()));
    JObject::List(out)
}

impl Clone for JObject {
    fn clone(&self) -> (r: Self)
        ensures
            r.view() == self.view(),
    {
        self.copy()
    }
}

} // verus!
