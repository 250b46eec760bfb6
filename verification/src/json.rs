//! A JSON document as the relay and the host exchange it, with the lookups
//! that the plugin's logic performs on it.
use vstd::prelude::*;
use vstd::string::*;
use crate::text::{owned, str_eq};

verus! {

/// A JSON value. Numbers are split as the wire format gives them:
/// non-negative integers, negative integers, and any other number kept as its text.
#[derive(Debug, PartialEq)]
pub enum Json {
    Null,
    Bool(bool),
    UInt(u64),
    Int(i64),
    Float(String),
    Str(String),
    Array(Vec<Json>),
    Object(Vec<(String, Json)>),
}

/// The mathematical value of a JSON document.
pub enum JsonValue {
    Null,
    Bool(bool),
    UInt(u64),
    Int(i64),
    Float(Seq<char>),
    Str(Seq<char>),
    Array(Seq<JsonValue>),
    Object(Seq<(Seq<char>, JsonValue)>),
}

pub open spec fn jv(j: Json) -> JsonValue
    decreases j, 0nat,
{
    match j {
        Json::Null => JsonValue::Null,
        Json::Bool(b) => JsonValue::Bool(b),
        Json::UInt(n) => JsonValue::UInt(n),
        Json::Int(n) => JsonValue::Int(n),
        Json::Float(t) => JsonValue::Float(t@),
        Json::Str(s) => JsonValue::Str(s@),
        Json::Array(items) => JsonValue::Array(jv_items(items@)),
        Json::Object(entries) => JsonValue::Object(jv_entries(entries@)),
    }
}

pub open spec fn jv_items(s: Seq<Json>) -> Seq<JsonValue>
    decreases s, 1nat,
{
    if s.len() == 0 {
        Seq::empty()
    } else {
        seq![jv(s[0])] + jv_items(s.drop_first())
    }
}

pub open spec fn jv_entries(s: Seq<(String, Json)>) -> Seq<(Seq<char>, JsonValue)>
    decreases s, 1nat,
{
    if s.len() == 0 {
        Seq::empty()
    } else {
        seq![(s[0].0@, jv(s[0].1))] + jv_entries(s.drop_first())
    }
}

impl View for Json {
    type V = JsonValue;

    open spec fn view(&self) -> JsonValue {
        jv(*self)
    }
}

pub proof fn lemma_jv_items(s: Seq<Json>)
    ensures
        jv_items(s).len() == s.len(),
        forall|i: int| 0 <= i < s.len() ==> #[trigger] jv_items(s)[i] == jv(s[i]),
    decreases s.len(),
{
    if s.len() > 0 {
        lemma_jv_items(s.drop_first());
        assert forall|i: int| 0 <= i < s.len() implies #[trigger] jv_items(s)[i] == jv(s[i]) by {
            if i > 0 {
                assert(s.drop_first()[i - 1] == s[i]);
            }
        }
    }
}

pub proof fn lemma_jv_entries(s: Seq<(String, Json)>)
    ensures
        jv_entries(s).len() == s.len(),
        forall|i: int|
            0 <= i < s.len() ==> #[trigger] jv_entries(s)[i] == (s[i].0@, jv(s[i].1)),
    decreases s.len(),
{
    if s.len() > 0 {
        lemma_jv_entries(s.drop_first());
        assert forall|i: int| 0 <= i < s.len() implies #[trigger] jv_entries(s)[i] == (
        s[i].0@,
        jv(s[i].1),
        ) by {
            if i > 0 {
                assert(s.drop_first()[i - 1] == s[i]);
            }
        }
    }
}

/// The value under `key` in an object's entries: the first entry with that key.
pub open spec fn entries_get(es: Seq<(Seq<char>, JsonValue)>, key: Seq<char>) -> Option<
    JsonValue,
>
    decreases es.len(),
{
    if es.len() == 0 {
        None
    } else if es[0].0 == key {
        Some(es[0].1)
    } else {
        entries_get(es.drop_first(), key)
    }
}

pub proof fn lemma_entries_get_found(es: Seq<(Seq<char>, JsonValue)>, key: Seq<char>, i: int)
    requires
        0 <= i < es.len(),
        es[i].0 == key,
        forall|k: int| 0 <= k < i ==> es[k].0 != key,
    ensures
        entries_get(es, key) == Some(es[i].1),
    decreases i,
{
    if i > 0 {
        assert(es[0].0 != key);
        lemma_entries_get_found(es.drop_first(), key, i - 1);
    }
}

pub proof fn lemma_entries_get_missing(es: Seq<(Seq<char>, JsonValue)>, key: Seq<char>)
    requires
        forall|k: int| 0 <= k < es.len() ==> es[k].0 != key,
    ensures
        entries_get(es, key) is None,
    decreases es.len(),
{
    if es.len() > 0 {
        assert(es[0].0 != key);
        lemma_entries_get_missing(es.drop_first(), key);
    }
}

impl JsonValue {
    /// The member `key` of an object; nothing for any other value.
    pub open spec fn field(self, key: Seq<char>) -> Option<JsonValue> {
        match self {
            JsonValue::Object(es) => entries_get(es, key),
            _ => None,
        }
    }

    pub open spec fn as_str(self) -> Option<Seq<char>> {
        match self {
            JsonValue::Str(s) => Some(s),
            _ => None,
        }
    }

    pub open spec fn as_bool(self) -> Option<bool> {
        match self {
            JsonValue::Bool(b) => Some(b),
            _ => None,
        }
    }

    /// A non-negative integer that fits in 64 bits.
    pub open spec fn as_u64(self) -> Option<u64> {
        match self {
            JsonValue::UInt(n) => Some(n),
            JsonValue::Int(n) => if n >= 0 {
                Some(n as u64)
            } else {
                None
            },
            _ => None,
        }
    }

    pub open spec fn as_array(self) -> Option<Seq<JsonValue>> {
        match self {
            JsonValue::Array(a) => Some(a),
            _ => None,
        }
    }

    pub open spec fn is_null(self) -> bool {
        self is Null
    }

    /// The string member `key`, if there is one.
    pub open spec fn field_str(self, key: Seq<char>) -> Option<Seq<char>> {
        match self.field(key) {
            Some(v) => v.as_str(),
            None => None,
        }
    }

    /// The boolean member `key`, if there is one.
    pub open spec fn field_bool(self, key: Seq<char>) -> Option<bool> {
        match self.field(key) {
            Some(v) => v.as_bool(),
            None => None,
        }
    }

    /// The array member `key`, if there is one.
    pub open spec fn field_array(self, key: Seq<char>) -> Option<Seq<JsonValue>> {
        match self.field(key) {
            Some(v) => v.as_array(),
            None => None,
        }
    }

    /// The string member `key`, or the empty string.
    pub open spec fn str_or_empty(self, key: Seq<char>) -> Seq<char> {
        match self.field_str(key) {
            Some(s) => s,
            None => Seq::empty(),
        }
    }
}

/// The view of an optional borrowed string.
pub open spec fn opt_str(o: Option<&str>) -> Option<Seq<char>> {
    match o {
        Some(s) => Some(s@),
        None => None,
    }
}

/// The view of an optional owned string.
pub open spec fn opt_string(o: Option<String>) -> Option<Seq<char>> {
    match o {
        Some(s) => Some(s@),
        None => None,
    }
}

/// The view of an optional borrowed JSON value.
pub open spec fn opt_json(o: Option<&Json>) -> Option<JsonValue> {
    match o {
        Some(j) => Some(j@),
        None => None,
    }
}

impl Json {
    /// The member `key` of an object.
    pub fn get(&self, key: &str) -> (r: Option<&Json>)
        ensures
            opt_json(r) == self@.field(key@),
    {
        match self {
            Json::Object(entries) => {
                proof {
                    lemma_jv_entries(entries@);
                }
                let ghost es = jv_entries(entries@);
                assert(self@ == JsonValue::Object(es));
                let mut i: usize = 0;
                while i < entries.len()
                    invariant
                        es == jv_entries(entries@),
                        self@ == JsonValue::Object(es),
                        es.len() == entries@.len(),
                        forall|k: int|
                            0 <= k < entries@.len() ==> #[trigger] es[k] == (
                            entries@[k].0@,
                            jv(entries@[k].1),
                            ),
                        i <= entries.len(),
                        forall|k: int| 0 <= k < i ==> es[k].0 != key@,
                    decreases entries.len() - i,
                {
                    if str_eq(entries[i].0.as_str(), key) {
                        proof {
                            lemma_entries_get_found(es, key@, i as int);
                            assert(es[i as int].1 == entries@[i as int].1@);
                        }
                        return Some(&entries[i].1);
                    }
                    i = i + 1;
                }
                proof {
                    lemma_entries_get_missing(es, key@);
                }
                None
            },
            _ => None,
        }
    }

    pub fn as_str(&self) -> (r: Option<&str>)
        ensures
            opt_str(r) == self@.as_str(),
    {
        match self {
            Json::Str(s) => Some(s.as_str()),
            _ => None,
        }
    }

    pub fn as_bool(&self) -> (r: Option<bool>)
        ensures
            r == self@.as_bool(),
    {
        match self {
            Json::Bool(b) => Some(*b),
            _ => None,
        }
    }

    pub fn as_u64(&self) -> (r: Option<u64>)
        ensures
            r == self@.as_u64(),
    {
        match self {
            Json::UInt(n) => Some(*n),
            Json::Int(n) => if *n >= 0 {
                Some(*n as u64)
            } else {
                None
            },
            _ => None,
        }
    }

    pub fn as_array(&self) -> (r: Option<&Vec<Json>>)
        ensures
            r is Some == self@.as_array() is Some,
            r matches Some(v) ==> self@.as_array() == Some(jv_items(v@)),
    {
        match self {
            Json::Array(items) => Some(items),
            _ => None,
        }
    }

    pub fn as_object(&self) -> (r: Option<&Vec<(String, Json)>>)
        ensures
            r is Some == self@ is Object,
            r matches Some(v) ==> self@ == JsonValue::Object(jv_entries(v@)),
    {
        match self {
            Json::Object(entries) => Some(entries),
            _ => None,
        }
    }

    pub fn is_null(&self) -> (r: bool)
        ensures
            r == self@.is_null(),
    {
        match self {
            Json::Null => true,
            _ => false,
        }
    }

    /// The string member `key`.
    pub fn get_str(&self, key: &str) -> (r: Option<&str>)
        ensures
            opt_str(r) == self@.field_str(key@),
    {
        match self.get(key) {
            Some(v) => v.as_str(),
            None => None,
        }
    }

    /// The boolean member `key`.
    pub fn get_bool(&self, key: &str) -> (r: Option<bool>)
        ensures
            r == self@.field_bool(key@),
    {
        match self.get(key) {
            Some(v) => v.as_bool(),
            None => None,
        }
    }

    /// The array member `key`.
    pub fn get_array(&self, key: &str) -> (r: Option<&Vec<Json>>)
        ensures
            r is Some == self@.field_array(key@) is Some,
            r matches Some(v) ==> self@.field_array(key@) == Some(jv_items(v@)),
    {
        match self.get(key) {
            Some(v) => v.as_array(),
            None => None,
        }
    }

    /// The string member `key` as an owned string, or the empty string.
    pub fn get_string_or_empty(&self, key: &str) -> (r: String)
        ensures
            r@ == self@.str_or_empty(key@),
    {
        match self.get_str(key) {
            Some(s) => owned(s),
            None => String::new(),
        }
    }

    /// A JSON string holding `s`.
    pub fn string(s: &str) -> (r: Json)
        ensures
            r@ == JsonValue::Str(s@),
    {
        Json::Str(owned(s))
    }
}

/// A JSON object of the given members, in order.
pub fn object(entries: Vec<(String, Json)>) -> (r: Json)
    ensures
        r@ == JsonValue::Object(jv_entries(entries@)),
{
    Json::Object(entries)
}

/// Pushes the member `key: value` onto an object's entries.
pub fn push_member(entries: &mut Vec<(String, Json)>, key: &str, value: Json)
    ensures
        jv_entries(final(entries)@) == jv_entries(old(entries)@).push((key@, value@)),
{
    proof {
        lemma_jv_entries(old(entries)@);
    }
    entries.push((owned(key), value));
    proof {
        lemma_jv_entries(entries@);
        assert(jv_entries(entries@) =~= jv_entries(old(entries)@).push((key@, value@)));
    }
}

/// `v` with member `key` set to `x`: a null becomes an object, an existing member keeps
/// its place, a new one goes last.
pub open spec fn with_member(v: JsonValue, key: Seq<char>, x: JsonValue) -> JsonValue {
    match v {
        JsonValue::Object(es) => if exists|i: int| 0 <= i < es.len() && es[i].0 == key {
            JsonValue::Object(
                es.update(choose|i: int| 0 <= i < es.len() && es[i].0 == key && (forall|k: int| 0 <= k < i ==> es[k].0 != key), (key, x)),
            )
        } else {
            JsonValue::Object(es.push((key, x)))
        },
        _ => JsonValue::Object(seq![(key, x)]),
    }
}

/// The value at the JSON pointer step `token` for an object member: arrays have no
/// member with a name that is not an index.
pub open spec fn pointer_member(v: JsonValue, token: Seq<char>) -> Option<JsonValue> {
    v.field(token)
}

/// The value at the JSON pointer step `0`: the member named `0` of an object, or the first
/// item of an array.
pub open spec fn pointer_first(v: JsonValue) -> Option<JsonValue> {
    match v {
        JsonValue::Object(_) => v.field("0"@),
        JsonValue::Array(items) => if items.len() > 0 {
            Some(items[0])
        } else {
            None
        },
        _ => None,
    }
}

impl Json {
    /// A copy of this value.
    pub fn duplicate(&self) -> (r: Json)
        ensures
            r@ == self@,
        decreases self,
    {
        match self {
            Json::Null => Json::Null,
            Json::Bool(b) => Json::Bool(*b),
            Json::UInt(n) => Json::UInt(*n),
            Json::Int(n) => Json::Int(*n),
            Json::Float(t) => Json::Float(t.clone()),
            Json::Str(s) => Json::Str(s.clone()),
            Json::Array(items) => {
                let mut out: Vec<Json> = Vec::new();
                let mut i: usize = 0;
                proof {
                    assert(decreases_to!(*self => *items));
                    assert(decreases_to!(*items => items@));
                    assert forall|k: int| 0 <= k < items@.len() implies decreases_to!(*self => #[trigger] items@[k]) by {
                        assert(decreases_to!(items@ => items@[k]));
                    }
                }
                while i < items.len()
                    invariant
                        forall|k: int| 0 <= k < items@.len() ==> decreases_to!(*self => #[trigger] items@[k]),
                        i <= items@.len(),
                        out@.len() == i,
                        forall|k: int| 0 <= k < i ==> (#[trigger] out@[k])@ == items@[k]@,
                    decreases items@.len() - i,
                {
                    out.push(items[i].duplicate());
                    i = i + 1;
                }
                proof {
                    lemma_jv_items(out@);
                    lemma_jv_items(items@);
                    assert(jv_items(out@) =~= jv_items(items@));
                }
                Json::Array(out)
            },
            Json::Object(entries) => {
                let mut out: Vec<(String, Json)> = Vec::new();
                let mut i: usize = 0;
                proof {
                    assert(decreases_to!(*self => *entries));
                    assert(decreases_to!(*entries => entries@));
                    assert forall|k: int| 0 <= k < entries@.len() implies decreases_to!(*self => (#[trigger] entries@[k]).1) by {
                        assert(decreases_to!(entries@ => entries@[k]));
                        assert(decreases_to!(entries@[k] => entries@[k].1));
                    }
                }
                while i < entries.len()
                    invariant
                        forall|k: int| 0 <= k < entries@.len() ==> decreases_to!(*self => (#[trigger] entries@[k]).1),
                        i <= entries@.len(),
                        out@.len() == i,
                        forall|k: int|
                            0 <= k < i ==> (#[trigger] out@[k]).0@ == entries@[k].0@ && out@[k].1@
                                == entries@[k].1@,
                    decreases entries@.len() - i,
                {
                    let v = entries[i].1.duplicate();
                    out.push((entries[i].0.clone(), v));
                    i = i + 1;
                }
                proof {
                    lemma_jv_entries(out@);
                    lemma_jv_entries(entries@);
                    assert(jv_entries(out@) =~= jv_entries(entries@));
                }
                Json::Object(out)
            },
        }
    }

    /// This value with member `key` set to `value`, a null made into an object first.
    pub fn with_member(self, key: &str, value: Json) -> (r: Json)
        requires
            self@ is Object || self@ is Null,
        ensures
            r@ == with_member(self@, key@, value@),
    {
        let ghost x = value@;
        let ghost original = self@;
        match self {
            Json::Object(mut entries) => {
                proof {
                    lemma_jv_entries(entries@);
                }
                let ghost es = jv_entries(entries@);
                assert(original == JsonValue::Object(es));
                let mut i: usize = 0;
                while i < entries.len()
                    invariant
                        x == value@,
                        original == self@,
                        original == JsonValue::Object(es),
                        es == jv_entries(entries@),
                        es.len() == entries@.len(),
                        forall|k: int|
                            0 <= k < entries@.len() ==> #[trigger] es[k] == (
                            entries@[k].0@,
                            entries@[k].1@,
                            ),
                        i <= entries@.len(),
                        forall|k: int| 0 <= k < i ==> es[k].0 != key@,
                    decreases entries@.len() - i,
                {
                    if str_eq(entries[i].0.as_str(), key) {
                        let ghost before = entries@;
                        entries.set(i, (owned(key), value));
                        proof {
                            lemma_jv_entries(entries@);
                            assert forall|k: int| 0 <= k < entries@.len() && k != i implies entries@[k] == before[k] by {}
                            assert(es[i as int].0 == key@);
                            assert(0 <= i < es.len() && es[i as int].0 == key@ && (forall|k: int|
                                0 <= k < i ==> es[k].0 != key@));
                            let j = choose|j: int|
                                0 <= j < es.len() && es[j].0 == key@ && (forall|k: int|
                                    0 <= k < j ==> es[k].0 != key@);
                            if j < i {
                                assert(es[j].0 != key@);
                            }
                            if j > i {
                                assert(es[i as int].0 != key@);
                            }
                            assert(j == i);
                            assert(entries@[i as int].0@ == key@);
                            assert(entries@[i as int].1@ == x);
                            assert(jv_entries(entries@)[i as int] == (key@, x));
                            assert forall|k: int| 0 <= k < entries@.len() && k != i implies jv_entries(entries@)[k] == es[k] by {
                                assert(before[k] == entries@[k]);
                            }
                            assert(jv_entries(entries@) =~= es.update(i as int, (key@, x)));
                            assert(with_member(original, key@, x) == JsonValue::Object(es.update(i as int, (key@, x))));
                        }
                        let r = Json::Object(entries);
                        assert(r@ == with_member(original, key@, x));
                        return r;
                    }
                    i = i + 1;
                }
                entries.push((owned(key), value));
                proof {
                    lemma_jv_entries(entries@);
                    assert(jv_entries(entries@) =~= es.push((key@, x)));
                }
                Json::Object(entries)
            },
            _ => {
                let mut entries: Vec<(String, Json)> = Vec::new();
                entries.push((owned(key), value));
                proof {
                    lemma_jv_entries(entries@);
                    assert(jv_entries(entries@) =~= seq![(key@, x)]);
                }
                Json::Object(entries)
            },
        }
    }

    /// The value at the JSON pointer step `0`.
    pub fn pointer_first(&self) -> (r: Option<&Json>)
        ensures
            opt_json(r) == pointer_first(self@),
    {
        match self {
            Json::Object(_) => self.get("0"),
            Json::Array(items) => if items.len() > 0 {
                proof {
                    lemma_jv_items(items@);
                }
                Some(&items[0])
            } else {
                None
            },
            _ => None,
        }
    }
}


#[verifier::external_type_specification]
#[verifier::external_body]
pub struct ExValue(serde_json::Value);

#[verifier::external_type_specification]
#[verifier::external_body]
pub struct ExNumber(serde_json::Number);

/// The JSON value that the text `text` parses to, as `serde_json::from_str` reads it and
/// with numbers split as `Json` splits them, or none when `text` is not one JSON document.
pub uninterp spec fn parsed_json(text: Seq<char>) -> Option<JsonValue>;

/// A `serde_json` number as a `Json` number: a non-negative integer, a negative integer,
/// or the text serde_json writes for any other number.
#[verifier::external_body]
fn json_of_number(n: &serde_json::Number) -> (r: Json) {
    match (n.as_u64(), n.as_i64()) {
        (Some(u), _) => Json::UInt(u),
        (None, Some(i)) => Json::Int(i),
        _ => Json::Float(n.to_string()),
    }
}

/// A `serde_json::Value` as a `Json` value, variant by variant.
#[verifier::external_body]
fn json_of_value(value: &serde_json::Value) -> (r: Json) {
    match value {
        serde_json::Value::Null => Json::Null,
        serde_json::Value::Bool(b) => Json::Bool(*b),
        serde_json::Value::Number(n) => json_of_number(n),
        serde_json::Value::String(t) => Json::Str(t.clone()),
        serde_json::Value::Array(items) => Json::Array(items.iter().map(json_of_value).collect()),
        serde_json::Value::Object(m) => Json::Object(m.iter().map(|(k, v)| (k.clone(), json_of_value(v))).collect()),
    }
}

/// `serde_json::from_str::<serde_json::Value>` on `text`, converted to `Json`: the parsed
/// document, named by `parsed_json`, or none when `text` does not parse. Parsing depends on
/// the text alone. What serde_json accepts as JSON is not written out here.
#[verifier::external_body]
pub(crate) fn parse_json(text: &str) -> (r: Option<Json>)
    ensures
        match r {
            Some(j) => parsed_json(text@) == Some(j@),
            None => parsed_json(text@) is None,
        },
{
    serde_json::from_str::<serde_json::Value>(text).ok().map(|v| json_of_value(&v))
}

} // verus!
