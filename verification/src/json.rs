//! A plain JSON data model that canvas records are read into.
//!
//! It holds the same values as a parsed JSON document: objects keep their
//! members in order, numbers keep which of the three JSON number kinds they
//! are (a float is kept as its IEEE-754 bit pattern, which this library never
//! computes with).
use vstd::prelude::*;

use crate::strs::{chars_eq, chars_of};

verus! {

/// A JSON number: a non-negative integer, a negative integer, or a float
/// (kept as the bit pattern of the `f64`).
#[derive(Debug, PartialEq, Eq, Structural)]
pub enum JsonNumber {
    PosInt(u64),
    NegInt(i64),
    Float(u64),
}

/// A JSON value.
#[derive(Debug)]
pub enum Json {
    Null,
    Bool(bool),
    Number(JsonNumber),
    String(String),
    Array(Vec<Json>),
    Object(Vec<(String, Json)>),
}

// ───────────────────────────── spec model ─────────────────────────────

/// The mathematical value of a [`Json`]: strings as character sequences.
pub enum JsonV {
    Null,
    Bool(bool),
    Number(JsonNumber),
    Str(Seq<char>),
    Array(Seq<JsonV>),
    Object(Seq<(Seq<char>, JsonV)>),
}

pub open spec fn json_view(j: Json) -> JsonV
    decreases j,
{
    match j {
        Json::Null => JsonV::Null,
        Json::Bool(b) => JsonV::Bool(b),
        Json::Number(n) => JsonV::Number(n),
        Json::String(s) => JsonV::Str(s@),
        Json::Array(v) => JsonV::Array(
            Seq::new(
                v@.len(),
                |i: int|
                    if 0 <= i < v@.len() {
                        json_view(v@[i])
                    } else {
                        JsonV::Null
                    },
            ),
        ),
        Json::Object(m) => JsonV::Object(
            Seq::new(
                m@.len(),
                |i: int|
                    if 0 <= i < m@.len() {
                        (m@[i].0@, json_view(m@[i].1))
                    } else {
                        (Seq::empty(), JsonV::Null)
                    },
            ),
        ),
    }
}

impl View for Json {
    type V = JsonV;

    open spec fn view(&self) -> JsonV {
        json_view(*self)
    }
}

/// The value of the first member named `key`.
pub open spec fn entries_get(entries: Seq<(Seq<char>, JsonV)>, key: Seq<char>) -> Option<JsonV>
    decreases entries.len(),
{
    if entries.len() == 0 {
        None
    } else if entries[0].0 == key {
        Some(entries[0].1)
    } else {
        entries_get(entries.drop_first(), key)
    }
}

/// Number of nodes of a JSON value; used as a termination measure.
pub open spec fn jsize(j: JsonV) -> nat
    decreases j,
{
    match j {
        JsonV::Array(v) => 1 + seq_size(v),
        JsonV::Object(m) => 1 + entries_size(m),
        _ => 1,
    }
}

pub open spec fn seq_size(s: Seq<JsonV>) -> nat
    decreases s,
{
    if s.len() == 0 {
        0
    } else {
        jsize(s[0]) + seq_size(s.subrange(1, s.len() as int))
    }
}

pub open spec fn entries_size(s: Seq<(Seq<char>, JsonV)>) -> nat
    decreases s,
{
    if s.len() == 0 {
        0
    } else {
        jsize(s[0].1) + entries_size(s.subrange(1, s.len() as int))
    }
}

impl JsonV {
    /// Member `key` of an object (`serde_json::Value::get`).
    pub open spec fn field(self, key: Seq<char>) -> Option<JsonV> {
        match self {
            JsonV::Object(m) => entries_get(m, key),
            _ => None,
        }
    }

    pub open spec fn str_view(self) -> Option<Seq<char>> {
        match self {
            JsonV::Str(s) => Some(s),
            _ => None,
        }
    }

    pub open spec fn bool_val(self) -> Option<bool> {
        match self {
            JsonV::Bool(b) => Some(b),
            _ => None,
        }
    }

    pub open spec fn array_view(self) -> Option<Seq<JsonV>> {
        match self {
            JsonV::Array(v) => Some(v),
            _ => None,
        }
    }

    /// `serde_json::Value::as_u64`.
    pub open spec fn u64_val(self) -> Option<u64> {
        match self {
            JsonV::Number(JsonNumber::PosInt(u)) => Some(u),
            _ => None,
        }
    }

    /// `serde_json::Value::as_i64`.
    pub open spec fn i64_val(self) -> Option<i64> {
        match self {
            JsonV::Number(JsonNumber::PosInt(u)) => if u <= i64::MAX as u64 {
                Some(u as i64)
            } else {
                None
            },
            JsonV::Number(JsonNumber::NegInt(i)) => Some(i),
            _ => None,
        }
    }
}

/// String member `key` of `v`.
pub open spec fn str_at(v: JsonV, key: Seq<char>) -> Option<Seq<char>> {
    match v.field(key) {
        Some(x) => x.str_view(),
        None => None,
    }
}

/// Boolean member `key` of `v`.
pub open spec fn bool_at(v: JsonV, key: Seq<char>) -> Option<bool> {
    match v.field(key) {
        Some(x) => x.bool_val(),
        None => None,
    }
}

/// Array member `key` of `v`.
pub open spec fn array_at(v: JsonV, key: Seq<char>) -> Option<Seq<JsonV>> {
    match v.field(key) {
        Some(x) => x.array_view(),
        None => None,
    }
}

/// Unsigned-integer member `key` of `v`.
pub open spec fn u64_at(v: JsonV, key: Seq<char>) -> Option<u64> {
    match v.field(key) {
        Some(x) => x.u64_val(),
        None => None,
    }
}

/// The view of an optional reference.
pub open spec fn opt_view(o: Option<&Json>) -> Option<JsonV> {
    match o {
        Some(x) => Some(x@),
        None => None,
    }
}

/// The views of a sequence of values.
pub open spec fn views(s: Seq<Json>) -> Seq<JsonV> {
    s.map_values(|j: Json| j@)
}

/// The view of an array value holds the views of its elements.
pub proof fn lemma_array_view(v: Vec<Json>)
    ensures
        json_view(Json::Array(v)) == JsonV::Array(views(v@)),
{
    assert(json_view(Json::Array(v))->Array_0 =~= views(v@));
}

// ───────────────────────────── size lemmas ─────────────────────────────

pub proof fn lemma_seq_elem_smaller(s: Seq<JsonV>, i: int)
    requires
        0 <= i < s.len(),
    ensures
        jsize(s[i]) <= seq_size(s),
    decreases s.len(),
{
    if i > 0 {
        let t = s.subrange(1, s.len() as int);
        lemma_seq_elem_smaller(t, i - 1);
        assert(t[i - 1] == s[i]);
    }
}

pub proof fn lemma_entries_elem_smaller(s: Seq<(Seq<char>, JsonV)>, i: int)
    requires
        0 <= i < s.len(),
    ensures
        jsize(s[i].1) <= entries_size(s),
    decreases s.len(),
{
    if i > 0 {
        let t = s.subrange(1, s.len() as int);
        lemma_entries_elem_smaller(t, i - 1);
        assert(t[i - 1] == s[i]);
    }
}

pub proof fn lemma_entries_get_smaller(s: Seq<(Seq<char>, JsonV)>, key: Seq<char>)
    ensures
        entries_get(s, key) matches Some(x) ==> jsize(x) <= entries_size(s),
    decreases s.len(),
{
    if s.len() > 0 {
        if s[0].0 != key {
            lemma_entries_get_smaller(s.drop_first(), key);
            assert(s.drop_first() =~= s.subrange(1, s.len() as int));
        }
    }
}

/// A member of an object is smaller than the object.
pub proof fn lemma_field_smaller(v: JsonV, key: Seq<char>)
    ensures
        v.field(key) matches Some(x) ==> jsize(x) < jsize(v),
{
    if let JsonV::Object(m) = v {
        lemma_entries_get_smaller(m, key);
    }
}

/// An element of an array member is smaller than the value holding it.
pub proof fn lemma_array_at_smaller(v: JsonV, key: Seq<char>, i: int)
    requires
        array_at(v, key) matches Some(a) && 0 <= i < a.len(),
    ensures
        jsize(array_at(v, key)->0[i]) < jsize(v),
{
    lemma_field_smaller(v, key);
    let x = v.field(key)->0;
    if let JsonV::Array(a) = x {
        lemma_seq_elem_smaller(a, i);
    }
}

// ───────────────────────────── exec accessors ─────────────────────────────

/// `a` and `b` hold the same characters.
pub fn str_eq(a: &str, b: &str) -> (r: bool)
    ensures
        r == (a@ == b@),
{
    let x = chars_of(a);
    let y = chars_of(b);
    chars_eq(x.as_slice(), y.as_slice())
}

impl Json {
    /// Member `key` of an object; `None` for other values.
    pub fn get(&self, key: &str) -> (r: Option<&Json>)
        ensures
            opt_view(r) == self@.field(key@),
    {
        match self {
            Json::Object(m) => {
                let ghost ents = self@->Object_0;
                assert(ents.len() == m@.len());
                assert(ents.subrange(0, ents.len() as int) =~= ents);
                assert(forall|k: int| 0 <= k < m@.len() ==> #[trigger] ents[k] == (m@[k].0@, m@[k].1@));
                let mut i: usize = 0;
                while i < m.len()
                    invariant
                        i <= m@.len(),
                        ents.len() == m@.len(),
                        self@ == JsonV::Object(ents),
                        forall|k: int| 0 <= k < m@.len() ==> #[trigger] ents[k] == (m@[k].0@, m@[k].1@),
                        self@ == json_view(Json::Object(*m)),
                        entries_get(ents, key@) == entries_get(ents.subrange(i as int, ents.len() as int), key@),
                    decreases m@.len() - i,
                {
                    let ghost rest = ents.subrange(i as int, ents.len() as int);
                    assert(rest[0] == ents[i as int]);
                    if str_eq(m[i].0.as_str(), key) {
                        assert(rest.len() > 0);
                        assert(rest[0].0 == key@);
                        assert(entries_get(rest, key@) == Some(rest[0].1));
                        return Some(&m[i].1);
                    }
                    assert(rest.drop_first() =~= ents.subrange(i + 1, ents.len() as int));
                    i += 1;
                }
                None
            },
            _ => None,
        }
    }

    pub fn as_str(&self) -> (r: Option<&str>)
        ensures
            match r {
                Some(s) => self@.str_view() == Some(s@),
                None => self@.str_view() is None,
            },
    {
        match self {
            Json::String(s) => Some(s.as_str()),
            _ => None,
        }
    }

    pub fn as_bool(&self) -> (r: Option<bool>)
        ensures
            r == self@.bool_val(),
    {
        match self {
            Json::Bool(b) => Some(*b),
            _ => None,
        }
    }

    pub fn as_array(&self) -> (r: Option<&Vec<Json>>)
        ensures
            match r {
                Some(a) => self@.array_view() == Some(views(a@)),
                None => self@.array_view() is None,
            },
    {
        match self {
            Json::Array(v) => Some(v),
            _ => None,
        }
    }

    pub fn as_u64(&self) -> (r: Option<u64>)
        ensures
            r == self@.u64_val(),
    {
        match self {
            Json::Number(JsonNumber::PosInt(u)) => Some(*u),
            _ => None,
        }
    }

    pub fn as_i64(&self) -> (r: Option<i64>)
        ensures
            r == self@.i64_val(),
    {
        match self {
            Json::Number(JsonNumber::PosInt(u)) => {
                if *u <= 9223372036854775807u64 {
                    Some(*u as i64)
                } else {
                    None
                }
            },
            Json::Number(JsonNumber::NegInt(i)) => Some(*i),
            _ => None,
        }
    }

    pub fn is_object(&self) -> (r: bool)
        ensures
            r == (self@ is Object),
    {
        match self {
            Json::Object(_) => true,
            _ => false,
        }
    }

    /// The characters of this value when it is a string.
    pub fn str_chars(&self) -> (r: Option<Vec<char>>)
        ensures
            match r {
                Some(c) => self@.str_view() == Some(c@),
                None => self@.str_view() is None,
            },
    {
        match self {
            Json::String(s) => Some(chars_of(s.as_str())),
            _ => None,
        }
    }

    /// The characters of string member `key`.
    pub fn str_field(&self, key: &str) -> (r: Option<Vec<char>>)
        ensures
            match r {
                Some(c) => str_at(self@, key@) == Some(c@),
                None => str_at(self@, key@) is None,
            },
    {
        match self.get(key) {
            Some(v) => v.str_chars(),
            None => None,
        }
    }

    /// Boolean member `key`.
    pub fn bool_field(&self, key: &str) -> (r: Option<bool>)
        ensures
            r == bool_at(self@, key@),
    {
        match self.get(key) {
            Some(v) => v.as_bool(),
            None => None,
        }
    }

    /// Array member `key`.
    pub fn array_field(&self, key: &str) -> (r: Option<&Vec<Json>>)
        ensures
            match r {
                Some(a) => array_at(self@, key@) == Some(views(a@)),
                None => array_at(self@, key@) is None,
            },
    {
        match self.get(key) {
            Some(v) => v.as_array(),
            None => None,
        }
    }

    /// Unsigned-integer member `key`.
    pub fn u64_field(&self, key: &str) -> (r: Option<u64>)
        ensures
            r == u64_at(self@, key@),
    {
        match self.get(key) {
            Some(v) => v.as_u64(),
            None => None,
        }
    }

    /// A copy of this value.
    pub fn deep_clone(&self) -> (r: Json)
        ensures
            r@ == self@,
        decreases jsize(self@),
    {
        match self {
            Json::Null => Json::Null,
            Json::Bool(b) => Json::Bool(*b),
            Json::Number(n) => Json::Number(
                match n {
                    JsonNumber::PosInt(u) => JsonNumber::PosInt(*u),
                    JsonNumber::NegInt(i) => JsonNumber::NegInt(*i),
                    JsonNumber::Float(f) => JsonNumber::Float(*f),
                },
            ),
            Json::String(s) => Json::String(s.clone()),
            Json::Array(v) => {
                let ghost items = self@->Array_0;
                let mut out: Vec<Json> = Vec::new();
                let mut i: usize = 0;
                while i < v.len()
                    invariant
                        i <= v@.len(),
                        items.len() == v@.len(),
                        self@ == json_view(Json::Array(*v)),
                        items == self@->Array_0,
                        forall|k: int| 0 <= k < v@.len() ==> #[trigger] items[k] == v@[k]@,
                        out@.len() == i,
                        forall|k: int| 0 <= k < i ==> #[trigger] out@[k]@ == v@[k]@,
                    decreases v@.len() - i,
                {
                    proof {
                        lemma_seq_elem_smaller(items, i as int);
                    }
                    let e = v[i].deep_clone();
                    out.push(e);
                    i += 1;
                }
                let r = Json::Array(out);
                assert(r@->Array_0.len() == items.len());
                assert forall|k: int| 0 <= k < items.len() implies r@->Array_0[k] == items[k] by {
                    assert(out@[k]@ == v@[k]@);
                }
                assert(r@->Array_0 =~= items);
                r
            },
            Json::Object(m) => {
                let ghost items = self@->Object_0;
                let mut out: Vec<(String, Json)> = Vec::new();
                let mut i: usize = 0;
                while i < m.len()
                    invariant
                        i <= m@.len(),
                        items.len() == m@.len(),
                        self@ == json_view(Json::Object(*m)),
                        items == self@->Object_0,
                        forall|k: int| 0 <= k < m@.len() ==> #[trigger] items[k] == (m@[k].0@, m@[k].1@),
                        out@.len() == i,
                        forall|k: int|
                            0 <= k < i ==> #[trigger] out@[k].0@ == m@[k].0@ && out@[k].1@ == m@[k].1@,
                    decreases m@.len() - i,
                {
                    proof {
                        lemma_entries_elem_smaller(items, i as int);
                    }
                    let key = m[i].0.clone();
                    let e = m[i].1.deep_clone();
                    out.push((key, e));
                    i += 1;
                }
                let r = Json::Object(out);
                assert(r@->Object_0 =~= items);
                r
            },
        }
    }
}


/// The views of a list of object members.
pub open spec fn members_view(m: Seq<(String, Json)>) -> Seq<(Seq<char>, JsonV)> {
    m.map_values(|p: (String, Json)| (p.0@, p.1@))
}

/// The value of the first member named `key` in a list of members.
pub fn lookup_member<'a>(m: &'a Vec<(String, Json)>, key: &str) -> (r: Option<&'a Json>)
    ensures
        opt_view(r) == entries_get(members_view(m@), key@),
{
    let ghost ents = members_view(m@);
    assert(ents.subrange(0, ents.len() as int) =~= ents);
    let mut i: usize = 0;
    while i < m.len()
        invariant
            i <= m@.len(),
            ents == members_view(m@),
            entries_get(ents, key@) == entries_get(ents.subrange(i as int, ents.len() as int), key@),
        decreases m@.len() - i,
    {
        let ghost rest = ents.subrange(i as int, ents.len() as int);
        assert(rest[0] == ents[i as int]);
        if str_eq(m[i].0.as_str(), key) {
            return Some(&m[i].1);
        }
        assert(rest.drop_first() =~= ents.subrange(i + 1, ents.len() as int));
        i += 1;
    }
    None
}

} // verus!
