//! JSON values as the library builds them. Objects keep their fields in the
//! order given; text is not escaped here, since what prints a value writes
//! it out.
use vstd::prelude::*;

use crate::text::owned;

verus! {

/// A JSON value.
#[derive(Debug)]
pub enum Json {
    Null,
    Bool(bool),
    /// A non-negative integer.
    Num(usize),
    /// A signed integer.
    Int(i64),
    Str(String),
    /// A value already written as JSON text, passed through as it is.
    Raw(String),
    Arr(Vec<Json>),
    Obj(Vec<(String, Json)>),
}

/// The mathematical value of a `Json`.
pub enum JsonView {
    Null,
    Bool(bool),
    Num(usize),
    Int(i64),
    Str(Seq<char>),
    Raw(Seq<char>),
    Arr(Seq<JsonView>),
    Obj(Seq<(Seq<char>, JsonView)>),
}

pub open spec fn view_json(j: Json) -> JsonView
    decreases j,
{
    match j {
        Json::Null => JsonView::Null,
        Json::Bool(b) => JsonView::Bool(b),
        Json::Num(n) => JsonView::Num(n),
        Json::Int(n) => JsonView::Int(n),
        Json::Str(s) => JsonView::Str(s@),
        Json::Raw(s) => JsonView::Raw(s@),
        Json::Arr(v) => JsonView::Arr(view_jsons(v@)),
        Json::Obj(v) => JsonView::Obj(view_fields(v@)),
    }
}

/// The values of a sequence of JSON values.
pub open spec fn view_jsons(s: Seq<Json>) -> Seq<JsonView>
    decreases s,
{
    if s.len() == 0 {
        Seq::empty()
    } else {
        view_jsons(s.drop_last()).push(view_json(s.last()))
    }
}

/// The values of a sequence of object fields.
pub open spec fn view_fields(s: Seq<(String, Json)>) -> Seq<(Seq<char>, JsonView)>
    decreases s,
{
    if s.len() == 0 {
        Seq::empty()
    } else {
        view_fields(s.drop_last()).push((s.last().0@, view_json(s.last().1)))
    }
}

impl View for Json {
    type V = JsonView;

    open spec fn view(&self) -> JsonView {
        view_json(*self)
    }
}

/// Pushing a value pushes its view.
pub proof fn lemma_view_jsons_push(s: Seq<Json>, x: Json)
    ensures
        view_jsons(s.push(x)) == view_jsons(s).push(view_json(x)),
{
    assert(s.push(x).drop_last() =~= s);
}

/// Pushing a field pushes its view.
pub proof fn lemma_view_fields_push(s: Seq<(String, Json)>, k: String, x: Json)
    ensures
        view_fields(s.push((k, x))) == view_fields(s).push((k@, view_json(x))),
{
    assert(s.push((k, x)).drop_last() =~= s);
}

/// A text value.
pub fn text(s: &str) -> (j: Json)
    ensures
        j@ == JsonView::Str(s@),
{
    Json::Str(owned(s))
}

/// An object under construction: fields are appended in order.
pub struct ObjBuilder {
    pub fields: Vec<(String, Json)>,
}

impl ObjBuilder {
    pub fn new() -> (b: ObjBuilder)
        ensures
            view_fields(b.fields@) == Seq::<(Seq<char>, JsonView)>::empty(),
    {
        ObjBuilder { fields: Vec::new() }
    }

    /// Appends the field `key: value`.
    pub fn field(&mut self, key: &str, value: Json)
        ensures
            view_fields(final(self).fields@) == view_fields(old(self).fields@).push((key@, value@)),
    {
        let k = owned(key);
        proof {
            lemma_view_fields_push(self.fields@, k, value);
        }
        self.fields.push((k, value));
    }

    /// The object.
    pub fn build(self) -> (j: Json)
        ensures
            j@ == JsonView::Obj(view_fields(self.fields@)),
    {
        Json::Obj(self.fields)
    }
}

/// The value of the first field named `key`, when `j` is an object.
pub open spec fn field_of(fields: Seq<(Seq<char>, JsonView)>, key: Seq<char>, i: int) -> Option<JsonView>
    decreases fields.len() - i,
{
    if i < 0 || i >= fields.len() {
        None
    } else if fields[i].0 == key {
        Some(fields[i].1)
    } else {
        field_of(fields, key, i + 1)
    }
}

proof fn lemma_view_fields(s: Seq<(String, Json)>)
    ensures
        view_fields(s).len() == s.len(),
        forall|i: int| 0 <= i < s.len() ==> #[trigger] view_fields(s)[i] == (s[i].0@, view_json(s[i].1)),
    decreases s.len(),
{
    if s.len() > 0 {
        lemma_view_fields(s.drop_last());
    }
}

proof fn lemma_view_jsons(s: Seq<Json>)
    ensures
        view_jsons(s).len() == s.len(),
        forall|i: int| 0 <= i < s.len() ==> #[trigger] view_jsons(s)[i] == view_json(s[i]),
    decreases s.len(),
{
    if s.len() > 0 {
        lemma_view_jsons(s.drop_last());
    }
}

impl Json {
    /// The value of field `key`, when this is an object that has one.
    pub fn get(&self, key: &str) -> (r: Option<&Json>)
        ensures
            r matches Some(v) ==> (self@ matches JsonView::Obj(fs) && field_of(fs, key@, 0) == Some(v@)),
            r is None ==> !(self@ matches JsonView::Obj(fs) && field_of(fs, key@, 0) is Some),
    {
        match self {
            Json::Obj(fields) => {
                let ghost fs = view_fields(fields@);
                proof {
                    lemma_view_fields(fields@);
                }
                assert(self@ == JsonView::Obj(fs));
                let mut i: usize = 0;
                while i < fields.len()
                    invariant
                        i <= fields@.len(),
                        fs == view_fields(fields@),
                        self@ == JsonView::Obj(fs),
                        fs.len() == fields@.len(),
                        forall|k: int| 0 <= k < fields@.len() ==> #[trigger] fs[k] == (fields@[k].0@, view_json(fields@[k].1)),
                        field_of(fs, key@, 0) == field_of(fs, key@, i as int),
                    decreases fields.len() - i,
                {
                    if crate::text::str_eq(fields[i].0.as_str(), key) {
                        assert(fs[i as int] == (fields@[i as int].0@, view_json(fields@[i as int].1)));
                        return Some(&fields[i].1);
                    }
                    assert(fs[i as int] == (fields@[i as int].0@, view_json(fields@[i as int].1)));
                    i += 1;
                }
                None
            },
            _ => None,
        }
    }

    /// The text, when this is a text value.
    pub fn as_str(&self) -> (r: Option<&str>)
        ensures
            r matches Some(s) ==> self@ == JsonView::Str(s@),
            r is None ==> !(self@ is Str),
    {
        match self {
            Json::Str(s) => Some(s.as_str()),
            _ => None,
        }
    }

    /// The number, when this is a non-negative integer.
    pub fn as_num(&self) -> (r: Option<usize>)
        ensures
            r matches Some(n) ==> self@ == JsonView::Num(n),
            r is None ==> !(self@ is Num),
    {
        match self {
            Json::Num(n) => Some(*n),
            _ => None,
        }
    }

    /// The elements, when this is an array.
    pub fn as_array(&self) -> (r: Option<&Vec<Json>>)
        ensures
            r matches Some(v) ==> self@ == JsonView::Arr(view_jsons(v@)),
            r is None ==> !(self@ is Arr),
    {
        match self {
            Json::Arr(v) => Some(v),
            _ => None,
        }
    }
}

/// The value of field `key` of an object.
pub open spec fn field(j: JsonView, key: Seq<char>) -> Option<JsonView> {
    match j {
        JsonView::Obj(fs) => field_of(fs, key, 0),
        _ => None,
    }
}

/// The text of field `key` of an object, when it is text.
pub open spec fn text_field(j: JsonView, key: Seq<char>) -> Option<Seq<char>> {
    match field(j, key) {
        Some(JsonView::Str(s)) => Some(s),
        _ => None,
    }
}

proof fn lemma_arr_below(j: Json, i: int)
    requires
        j is Arr,
        0 <= i < j->Arr_0@.len(),
    ensures
        decreases_to!(j => j->Arr_0@[i]),
{
    let v = j->Arr_0;
    assert(decreases_to!(j => v));
    assert(decreases_to!(v => v@));
    assert(decreases_to!(v@ => v@[i]));
}

proof fn lemma_obj_below(j: Json, i: int)
    requires
        j is Obj,
        0 <= i < j->Obj_0@.len(),
    ensures
        decreases_to!(j => j->Obj_0@[i].1),
{
    let v = j->Obj_0;
    assert(decreases_to!(j => v));
    assert(decreases_to!(v => v@));
    assert(decreases_to!(v@ => v@[i]));
    assert(decreases_to!(v@[i] => v@[i].1));
}

impl Json {
    /// A copy of the value.
    pub fn copy(&self) -> (r: Json)
        ensures
            r@ == self@,
        decreases self,
    {
        match self {
            Json::Null => Json::Null,
            Json::Bool(b) => Json::Bool(*b),
            Json::Num(n) => Json::Num(*n),
            Json::Int(n) => Json::Int(*n),
            Json::Str(s) => Json::Str(s.clone()),
            Json::Raw(s) => Json::Raw(s.clone()),
            Json::Arr(v) => {
                let mut out: Vec<Json> = Vec::new();
                let mut i: usize = 0;
                proof {
                    lemma_view_jsons(v@);
                }
                while i < v.len()
                    invariant
                        i <= v@.len(),
                        *self == Json::Arr(*v),
                        view_jsons(v@).len() == v@.len(),
                        forall|k: int| 0 <= k < v@.len() ==> #[trigger] view_jsons(v@)[k] == view_json(v@[k]),
                        view_jsons(out@) == view_jsons(v@).take(i as int),
                    decreases v.len() - i,
                {
                    proof {
                        lemma_arr_below(*self, i as int);
                    }
                    let x = v[i].copy();
                    proof {
                        lemma_view_jsons_push(out@, x);
                    }
                    out.push(x);
                    assert(view_jsons(out@) =~= view_jsons(v@).take(i + 1));
                    i += 1;
                }
                assert(view_jsons(v@).take(v@.len() as int) =~= view_jsons(v@));
                Json::Arr(out)
            },
            Json::Obj(v) => {
                let mut out: Vec<(String, Json)> = Vec::new();
                let mut i: usize = 0;
                proof {
                    lemma_view_fields(v@);
                }
                while i < v.len()
                    invariant
                        i <= v@.len(),
                        *self == Json::Obj(*v),
                        view_fields(v@).len() == v@.len(),
                        forall|k: int| 0 <= k < v@.len() ==> #[trigger] view_fields(v@)[k] == (v@[k].0@, view_json(v@[k].1)),
                        view_fields(out@) == view_fields(v@).take(i as int),
                    decreases v.len() - i,
                {
                    let k = v[i].0.clone();
                    proof {
                        lemma_obj_below(*self, i as int);
                    }
                    let x = v[i].1.copy();
                    proof {
                        lemma_view_fields_push(out@, k, x);
                    }
                    out.push((k, x));
                    assert(view_fields(out@) =~= view_fields(v@).take(i + 1));
                    i += 1;
                }
                assert(view_fields(v@).take(v@.len() as int) =~= view_fields(v@));
                Json::Obj(out)
            },
        }
    }

    /// The text of field `key`, when this is an object whose field is text.
    pub fn text_field(&self, key: &str) -> (r: Option<String>)
        ensures
            r matches Some(s) ==> text_field(self@, key@) == Some(s@),
            r is None ==> text_field(self@, key@) is None,
    {
        match self.get(key) {
            Some(v) => match v.as_str() {
                Some(s) => Some(owned(s)),
                None => None,
            },
            None => None,
        }
    }
}

} // verus!
