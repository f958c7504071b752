//! JSON values: what the library reads and writes of the free-form parts of a
//! memory (metadata, external references) and of an error report.

use vstd::prelude::*;
use vstd::string::*;

use crate::text::str_eq;

verus! {

/// A JSON number. Floating-point numbers are held by their IEEE 754 bits.
#[derive(Clone, Copy, Debug, PartialEq, Eq, Structural)]
pub enum Number {
    /// A number from zero up.
    PosInt(u64),
    /// A number below zero.
    NegInt(i64),
    /// A double-precision number.
    Float(u64),
    /// A single-precision number.
    Single(u32),
}

/// A JSON value. The keys of an object are told apart by the first entry that
/// has them.
#[derive(Debug, PartialEq, Eq)]
pub enum Json {
    Null,
    Bool(bool),
    Number(Number),
    Text(String),
    Array(Vec<Json>),
    Object(Vec<(String, Json)>),
}

/// What a [`Json`] value stands for.
pub enum JsonView {
    Null,
    Bool(bool),
    Number(Number),
    Text(Seq<char>),
    Array(Seq<JsonView>),
    Object(Seq<(Seq<char>, JsonView)>),
}

/// What a [`Json`] value stands for.
pub open spec fn json_view(j: Json) -> JsonView
    decreases j,
{
    match j {
        Json::Null => JsonView::Null,
        Json::Bool(b) => JsonView::Bool(b),
        Json::Number(n) => JsonView::Number(n),
        Json::Text(s) => JsonView::Text(s@),
        Json::Array(v) => JsonView::Array(
            Seq::new(
                v@.len(),
                |i: int|
                    if 0 <= i < v@.len() {
                        json_view(v@[i])
                    } else {
                        JsonView::Null
                    },
            ),
        ),
        Json::Object(v) => JsonView::Object(
            Seq::new(
                v@.len(),
                |i: int|
                    if 0 <= i < v@.len() {
                        (v@[i].0@, json_view(v@[i].1))
                    } else {
                        (Seq::empty(), JsonView::Null)
                    },
            ),
        ),
    }
}

impl View for Json {
    type V = JsonView;

    open spec fn view(&self) -> JsonView {
        json_view(*self)
    }
}

/// The view of an optional JSON value.
pub open spec fn opt_json(o: Option<Json>) -> Option<JsonView> {
    match o {
        Some(j) => Some(j@),
        None => None,
    }
}

/// The value of the first entry with the given key at or after position `i`.
pub open spec fn entry_from(entries: Seq<(Seq<char>, JsonView)>, key: Seq<char>, i: int) -> Option<
    JsonView,
>
    decreases entries.len() - i,
{
    if i < 0 || i >= entries.len() {
        None
    } else if entries[i].0 == key {
        Some(entries[i].1)
    } else {
        entry_from(entries, key, i + 1)
    }
}

impl JsonView {
    /// The member `key` of an object; no other value has members.
    pub open spec fn member(self, key: Seq<char>) -> Option<JsonView> {
        match self {
            JsonView::Object(entries) => entry_from(entries, key, 0),
            _ => None,
        }
    }

    /// The text of a string.
    pub open spec fn text(self) -> Option<Seq<char>> {
        match self {
            JsonView::Text(s) => Some(s),
            _ => None,
        }
    }

    /// The elements of an array.
    pub open spec fn elements(self) -> Option<Seq<JsonView>> {
        match self {
            JsonView::Array(v) => Some(v),
            _ => None,
        }
    }

    /// The member `key`, where it is a string.
    pub open spec fn text_member(self, key: Seq<char>) -> Option<Seq<char>> {
        match self.member(key) {
            Some(v) => v.text(),
            None => None,
        }
    }

    /// The member `key`, where it is an array.
    pub open spec fn array_member(self, key: Seq<char>) -> Option<Seq<JsonView>> {
        match self.member(key) {
            Some(v) => v.elements(),
            None => None,
        }
    }

    /// The member `key`, or null where there is none.
    pub open spec fn member_or_null(self, key: Seq<char>) -> JsonView {
        match self.member(key) {
            Some(v) => v,
            None => JsonView::Null,
        }
    }

    /// The name of the value's type.
    pub open spec fn kind_name(self) -> Seq<char> {
        match self {
            JsonView::Null => "null"@,
            JsonView::Bool(_) => "bool"@,
            JsonView::Number(_) => "number"@,
            JsonView::Text(_) => "string"@,
            JsonView::Array(_) => "array"@,
            JsonView::Object(_) => "object"@,
        }
    }
}

impl Json {
    /// A copy of the value.
    pub fn copy(&self) -> (r: Json)
        ensures
            r@ == self@,
        decreases self,
    {
        match self {
            Json::Null => Json::Null,
            Json::Bool(b) => Json::Bool(*b),
            Json::Number(n) => Json::Number(*n),
            Json::Text(s) => Json::Text(s.clone()),
            Json::Array(v) => {
                let mut r: Vec<Json> = Vec::new();
                for i in 0..v.len()
                    invariant
                        self matches Json::Array(w) && w == v,
                        r@.len() == i,
                        forall|j: int| 0 <= j < i ==> (#[trigger] r@[j])@ == v@[j]@,
                {
                    let c = v[i].copy();
                    r.push(c);
                }
                let out = Json::Array(r);
                assert(out@->Array_0 =~= self@->Array_0);
                out
            },
            Json::Object(v) => {
                let mut r: Vec<(String, Json)> = Vec::new();
                for i in 0..v.len()
                    invariant
                        self matches Json::Object(w) && w == v,
                        r@.len() == i,
                        forall|j: int|
                            0 <= j < i ==> (#[trigger] r@[j]).0@ == v@[j].0@ && r@[j].1@
                                == v@[j].1@,
                {
                    let c = v[i].1.copy();
                    r.push((v[i].0.clone(), c));
                }
                let out = Json::Object(r);
                assert(out@->Object_0 =~= self@->Object_0);
                out
            },
        }
    }

    /// The member `key` of an object; `None` for every other value.
    pub fn get(&self, key: &str) -> (r: Option<&Json>)
        ensures
            match r {
                Some(v) => self@.member(key@) == Some(v@),
                None => self@.member(key@) is None,
            },
    {
        match self {
            Json::Object(v) => {
                let mut i: usize = 0;
                while i < v.len()
                    invariant
                        i <= v@.len(),
                        self@ matches JsonView::Object(entries) && entries.len() == v@.len() && (
                        forall|j: int|
                            0 <= j < v@.len() ==> #[trigger] entries[j] == (v@[j].0@, v@[j].1@))
                            && self@.member(key@) == entry_from(entries, key@, i as int),
                    decreases v@.len() - i,
                {
                    if str_eq(v[i].0.as_str(), key) {
                        return Some(&v[i].1);
                    }
                    i = i + 1;
                }
                None
            },
            _ => None,
        }
    }

    /// The text of a string; `None` for every other value.
    pub fn as_str(&self) -> (r: Option<&str>)
        ensures
            match r {
                Some(s) => self@.text() == Some(s@),
                None => self@.text() is None,
            },
    {
        match self {
            Json::Text(s) => Some(s.as_str()),
            _ => None,
        }
    }

    /// The elements of an array; `None` for every other value.
    pub fn as_array(&self) -> (r: Option<&Vec<Json>>)
        ensures
            match r {
                Some(v) => self@.elements() == Some(views(v@)),
                None => self@.elements() is None,
            },
    {
        match self {
            Json::Array(v) => {
                assert(self@->Array_0 =~= views(v@));
                Some(v)
            },
            _ => None,
        }
    }

    /// Whether the value is an object.
    pub fn is_object(&self) -> (r: bool)
        ensures
            r == (self@ is Object),
    {
        match self {
            Json::Object(_) => true,
            _ => false,
        }
    }

    /// The name of the value's type.
    pub fn kind_name(&self) -> (r: &'static str)
        ensures
            r@ == self@.kind_name(),
    {
        match self {
            Json::Null => "null",
            Json::Bool(_) => "bool",
            Json::Number(_) => "number",
            Json::Text(_) => "string",
            Json::Array(_) => "array",
            Json::Object(_) => "object",
        }
    }

    /// The member `key`, where it is a string.
    pub fn get_str(&self, key: &str) -> (r: Option<&str>)
        ensures
            match r {
                Some(s) => self@.text_member(key@) == Some(s@),
                None => self@.text_member(key@) is None,
            },
    {
        match self.get(key) {
            Some(v) => v.as_str(),
            None => None,
        }
    }

    /// A copy of the member `key`, or null where there is none.
    pub fn get_or_null(&self, key: &str) -> (r: Json)
        ensures
            r@ == self@.member_or_null(key@),
    {
        match self.get(key) {
            Some(v) => v.copy(),
            None => Json::Null,
        }
    }
}

/// The views of the values of a sequence.
pub open spec fn views(v: Seq<Json>) -> Seq<JsonView> {
    v.map_values(|j: Json| j@)
}

/// The string value of the given text.
pub fn text_value(s: &str) -> (r: Json)
    ensures
        r@ == JsonView::Text(s@),
{
    Json::Text(s.to_owned())
}

/// The number value of an integer.
pub open spec fn int_value(n: int) -> JsonView {
    if n < 0 {
        JsonView::Number(Number::NegInt(n as i64))
    } else {
        JsonView::Number(Number::PosInt(n as u64))
    }
}

/// The number value of a signed integer.
pub fn signed(n: i64) -> (r: Json)
    ensures
        r@ == int_value(n as int),
{
    if n < 0 {
        Json::Number(Number::NegInt(n))
    } else {
        Json::Number(Number::PosInt(n as u64))
    }
}

/// The number value of an unsigned integer.
pub fn unsigned(n: u64) -> (r: Json)
    ensures
        r@ == int_value(n as int),
{
    Json::Number(Number::PosInt(n))
}

/// The object with one member.
pub open spec fn object1(k: Seq<char>, v: JsonView) -> JsonView {
    JsonView::Object(seq![(k, v)])
}

/// The object with two members.
pub open spec fn object2(k1: Seq<char>, v1: JsonView, k2: Seq<char>, v2: JsonView) -> JsonView {
    JsonView::Object(seq![(k1, v1), (k2, v2)])
}

/// The object with one member.
pub fn make_object1(k: &str, v: Json) -> (r: Json)
    ensures
        r@ == object1(k@, v@),
{
    let mut e: Vec<(String, Json)> = Vec::new();
    e.push((k.to_owned(), v));
    let r = Json::Object(e);
    assert(r@->Object_0 =~= seq![(k@, v@)]);
    r
}

/// The object with two members.
pub fn make_object2(k1: &str, v1: Json, k2: &str, v2: Json) -> (r: Json)
    ensures
        r@ == object2(k1@, v1@, k2@, v2@),
{
    let mut e: Vec<(String, Json)> = Vec::new();
    e.push((k1.to_owned(), v1));
    e.push((k2.to_owned(), v2));
    let r = Json::Object(e);
    assert(r@->Object_0 =~= seq![(k1@, v1@), (k2@, v2@)]);
    r
}

/// A member of an object is the value of the first entry with its key, and there is none
/// where no entry has the key.
pub proof fn lemma_member_is_the_first_with_its_key(
    entries: Seq<(Seq<char>, JsonView)>,
    key: Seq<char>,
    i: int,
)
    requires
        0 <= i <= entries.len(),
        forall|j: int| 0 <= j < i ==> (#[trigger] entries[j]).0 != key,
    ensures
        i < entries.len() && entries[i].0 == key ==> JsonView::Object(entries).member(key) == Some(
            entries[i].1,
        ),
        i == entries.len() ==> JsonView::Object(entries).member(key) is None,
{
    lemma_entry_skips(entries, key, 0, i);
}

proof fn lemma_entry_skips(entries: Seq<(Seq<char>, JsonView)>, key: Seq<char>, from: int, i: int)
    requires
        0 <= from <= i <= entries.len(),
        forall|j: int| from <= j < i ==> (#[trigger] entries[j]).0 != key,
    ensures
        entry_from(entries, key, from) == entry_from(entries, key, i),
    decreases i - from,
{
    if from < i {
        lemma_entry_skips(entries, key, from + 1, i);
    }
}

/// An object gives back what it was made with, and nothing else.
pub proof fn lemma_objects_give_back_their_members(
    k1: Seq<char>,
    v1: JsonView,
    k2: Seq<char>,
    v2: JsonView,
    other: Seq<char>,
)
    requires
        k1 != k2,
        other != k1,
        other != k2,
    ensures
        object1(k1, v1).member(k1) == Some(v1),
        object1(k1, v1).member(other) is None,
        object2(k1, v1, k2, v2).member(k1) == Some(v1),
        object2(k1, v1, k2, v2).member(k2) == Some(v2),
        object2(k1, v1, k2, v2).member(other) is None,
{
    reveal_with_fuel(entry_from, 3);
}

/// A value stands for what it holds, element by element and entry by entry.
pub proof fn lemma_values_stand_for_what_they_hold(j: Json, i: int)
    ensures
        j == Json::Null ==> j@ == JsonView::Null,
        j matches Json::Bool(b) ==> j@ == JsonView::Bool(b),
        j matches Json::Number(n) ==> j@ == JsonView::Number(n),
        j matches Json::Text(s) ==> j@ == JsonView::Text(s@),
        j matches Json::Array(v) ==> (j@ matches JsonView::Array(w) && w.len() == v@.len() && (0
            <= i < w.len() ==> w[i] == v@[i]@)),
        j matches Json::Object(v) ==> (j@ matches JsonView::Object(w) && w.len() == v@.len() && (0
            <= i < w.len() ==> w[i].0 == v@[i].0@ && w[i].1 == v@[i].1@)),
{
}

} // verus!
