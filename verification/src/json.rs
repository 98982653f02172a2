//! JSON values as the `serde_json` crate holds them. A value is opaque here;
//! `json_of` names what it holds, and each function below is one call into
//! the crate, stated over that.

use serde_json::Value;
use vstd::prelude::*;

verus! {

#[verifier::external_type_specification]
#[verifier::external_body]
pub struct ExValue(serde_json::Value);

/// What a JSON value holds. An object is the sequence of its entries in the
/// order in which the crate walks them, each key once. A number is known by
/// how it reads as `u64` and as `i64`.
pub enum Json {
    Null,
    Bool(bool),
    Number { unsigned: Option<u64>, signed: Option<i64> },
    Text(Seq<char>),
    Array(Seq<Json>),
    Object(Seq<(Seq<char>, Json)>),
}

/// The variants of a JSON value.
#[derive(Clone, Copy, PartialEq, Eq, Structural)]
pub enum JsonKind {
    Null,
    Bool,
    Number,
    Text,
    Array,
    Object,
}

/// What a `serde_json::Value` holds.
pub uninterp spec fn json_of(v: serde_json::Value) -> Json;

/// What `serde_json::from_str` reads from a text; `None` where it is no JSON.
pub uninterp spec fn json_read(text: Seq<char>) -> Option<Json>;

pub open spec fn kind_of(j: Json) -> JsonKind {
    match j {
        Json::Null => JsonKind::Null,
        Json::Bool(_) => JsonKind::Bool,
        Json::Number { .. } => JsonKind::Number,
        Json::Text(_) => JsonKind::Text,
        Json::Array(_) => JsonKind::Array,
        Json::Object(_) => JsonKind::Object,
    }
}

/// The value of the first entry from `i` on whose key is `key`.
pub open spec fn entry_from(entries: Seq<(Seq<char>, Json)>, key: Seq<char>, i: int) -> Option<Json>
    decreases entries.len() - i,
{
    if i < 0 || i >= entries.len() {
        None
    } else if entries[i].0 == key {
        Some(entries[i].1)
    } else {
        entry_from(entries, key, i + 1)
    }
}

/// The member `key` of an object; `None` where it has none, or is no object.
pub open spec fn member(j: Json, key: Seq<char>) -> Option<Json> {
    match j {
        Json::Object(entries) => entry_from(entries, key, 0),
        _ => None,
    }
}

/// The member `key`, with `Null` in place of one that is not there.
pub open spec fn field(j: Json, key: Seq<char>) -> Json {
    match member(j, key) {
        Some(v) => v,
        None => Json::Null,
    }
}

pub open spec fn text_of(j: Json) -> Option<Seq<char>> {
    match j {
        Json::Text(s) => Some(s),
        _ => None,
    }
}

pub open spec fn bool_of(j: Json) -> Option<bool> {
    match j {
        Json::Bool(b) => Some(b),
        _ => None,
    }
}

pub open spec fn u64_of(j: Json) -> Option<u64> {
    match j {
        Json::Number { unsigned, .. } => unsigned,
        _ => None,
    }
}

pub open spec fn i64_of(j: Json) -> Option<i64> {
    match j {
        Json::Number { signed, .. } => signed,
        _ => None,
    }
}

pub open spec fn array_of(j: Json) -> Option<Seq<Json>> {
    match j {
        Json::Array(items) => Some(items),
        _ => None,
    }
}

/// What the values of a list hold.
pub open spec fn jsons(v: Seq<serde_json::Value>) -> Seq<Json> {
    Seq::new(v.len(), |i: int| json_of(v[i]))
}

/// What the entries of a list hold.
pub open spec fn json_entries(v: Seq<(String, serde_json::Value)>) -> Seq<(Seq<char>, Json)> {
    Seq::new(v.len(), |i: int| (v[i].0@, json_of(v[i].1)))
}

/// Whether a value has no number but integers, and nests at most `room` deep.
pub open spec fn plain_json(j: Json, room: nat) -> bool
    decreases room,
{
    match j {
        Json::Null => true,
        Json::Bool(_) => true,
        Json::Text(_) => true,
        Json::Number { unsigned, signed } => unsigned is Some || signed is Some,
        Json::Array(items) => room > 0 && forall|i: int|
            0 <= i < items.len() ==> plain_json(#[trigger] items[i], (room - 1) as nat),
        Json::Object(_) => room > 0 && forall|key: Seq<char>|
            (#[trigger] member(j, key)) is Some ==> plain_json(
                member(j, key)->0,
                (room - 1) as nat,
            ),
    }
}

pub proof fn lemma_plain_deeper(j: Json, a: nat, b: nat)
    requires
        plain_json(j, a),
        a <= b,
    ensures
        plain_json(j, b),
    decreases a,
{
    match j {
        Json::Array(items) => {
            assert forall|i: int| 0 <= i < items.len() implies plain_json(
                #[trigger] items[i],
                (b - 1) as nat,
            ) by {
                lemma_plain_deeper(items[i], (a - 1) as nat, (b - 1) as nat);
            }
        },
        Json::Object(_) => {
            assert forall|key: Seq<char>| (#[trigger] member(j, key)) is Some implies plain_json(
                member(j, key)->0,
                (b - 1) as nat,
            ) by {
                lemma_plain_deeper(member(j, key)->0, (a - 1) as nat, (b - 1) as nat);
            }
        },
        _ => {},
    }
}

/// What is found among plain entries is plain.
pub proof fn lemma_plain_entry(
    entries: Seq<(Seq<char>, Json)>,
    key: Seq<char>,
    i: int,
    room: nat,
)
    requires
        0 <= i,
        forall|k: int| 0 <= k < entries.len() ==> plain_json((#[trigger] entries[k]).1, room),
    ensures
        entry_from(entries, key, i) is Some ==> plain_json(entry_from(entries, key, i)->0, room),
    decreases entries.len() - i,
{
    if i < entries.len() && entries[i].0 != key {
        lemma_plain_entry(entries, key, i + 1, room);
    }
}

/// An object of plain members is plain.
pub proof fn lemma_plain_object(j: Json, entries: Seq<(Seq<char>, Json)>, room: nat)
    requires
        is_object(j, entries),
        forall|k: int| 0 <= k < entries.len() ==> plain_json((#[trigger] entries[k]).1, room),
    ensures
        plain_json(j, room + 1),
{
    assert forall|key: Seq<char>| (#[trigger] member(j, key)) is Some implies plain_json(
        member(j, key)->0,
        room,
    ) by {
        lemma_plain_entry(entries, key, 0, room);
    }
}

/// `Value::to_string`: the value as compact JSON. The crate's reader gives
/// back what was written, as far as it goes: of integers, and of arrays and
/// objects no deeper than it follows. How other numbers, or deeper values, are
/// written is not said.
#[verifier::external_body]
pub(crate) fn write_json(v: &Value) -> (r: String)
    ensures
        plain_json(json_of(*v), 127) ==> json_read(r@) == Some(json_of(*v)),
{
    v.to_string()
}

/// `serde_json::from_str`, into a `Value`: `None` for every error. Its result
/// is named; nothing else is said of it.
#[verifier::external_body]
pub(crate) fn parse_json(text: &str) -> (r: Option<Value>)
    ensures
        match r {
            Some(v) => json_read(text@) == Some(json_of(v)),
            None => json_read(text@) is None,
        },
{
    serde_json::from_str::<Value>(text).ok()
}

/// The variant of a `Value`.
#[verifier::external_body]
pub(crate) fn kind(v: &Value) -> (r: JsonKind)
    ensures
        r == kind_of(json_of(*v)),
{
    match v {
        Value::Null => JsonKind::Null,
        Value::Bool(_) => JsonKind::Bool,
        Value::Number(_) => JsonKind::Number,
        Value::String(_) => JsonKind::Text,
        Value::Array(_) => JsonKind::Array,
        Value::Object(_) => JsonKind::Object,
    }
}

/// `Value::get` with a string: the member of that name, `None` where the value
/// is no object or lacks it.
#[verifier::external_body]
pub(crate) fn get<'a>(v: &'a Value, key: &str) -> (r: Option<&'a Value>)
    ensures
        match r {
            Some(x) => member(json_of(*v), key@) == Some(json_of(*x)),
            None => member(json_of(*v), key@) is None,
        },
{
    v.get(key)
}

/// `Value` indexed by a string: the member of that name, or `Null`.
#[verifier::external_body]
pub(crate) fn at<'a>(v: &'a Value, key: &str) -> (r: &'a Value)
    ensures
        json_of(*r) == field(json_of(*v), key@),
{
    &v[key]
}

/// `Value::as_str`: the text of a string.
#[verifier::external_body]
pub(crate) fn as_text(v: &Value) -> (r: Option<&str>)
    ensures
        match r {
            Some(s) => text_of(json_of(*v)) == Some(s@),
            None => text_of(json_of(*v)) is None,
        },
{
    v.as_str()
}

/// `Value::as_bool`.
#[verifier::external_body]
pub(crate) fn as_bool(v: &Value) -> (r: Option<bool>)
    ensures
        r == bool_of(json_of(*v)),
{
    v.as_bool()
}

/// `Value::as_u64`.
#[verifier::external_body]
pub(crate) fn as_u64(v: &Value) -> (r: Option<u64>)
    ensures
        r == u64_of(json_of(*v)),
{
    v.as_u64()
}

/// `Value::as_i64`.
#[verifier::external_body]
pub(crate) fn as_i64(v: &Value) -> (r: Option<i64>)
    ensures
        r == i64_of(json_of(*v)),
{
    v.as_i64()
}

/// `Value::as_array`: the items of an array.
#[verifier::external_body]
pub(crate) fn as_array(v: &Value) -> (r: Option<&Vec<Value>>)
    ensures
        match r {
            Some(items) => array_of(json_of(*v)) == Some(jsons(items@)),
            None => array_of(json_of(*v)) is None,
        },
{
    v.as_array()
}

/// `Value::as_object`, and the entries of the map in the order in which it
/// walks them.
#[verifier::external_body]
pub(crate) fn as_object(v: &Value) -> (r: Option<Vec<(String, Value)>>)
    ensures
        match r {
            Some(entries) => json_of(*v) == Json::Object(json_entries(entries@)),
            None => json_of(*v) !is Object,
        },
{
    let map = v.as_object()?;
    Some(map.iter().map(|(k, x)| (k.clone(), x.clone())).collect())
}

/// `Value::clone`: the copy holds what the value holds.
#[verifier::external_body]
pub(crate) fn copy(v: &Value) -> (r: Value)
    ensures
        json_of(r) == json_of(*v),
{
    v.clone()
}

/// `Value::Null`.
#[verifier::external_body]
pub(crate) fn null() -> (r: Value)
    ensures
        json_of(r) == Json::Null,
{
    Value::Null
}

/// `Value::from` a `bool`.
#[verifier::external_body]
pub(crate) fn from_bool(b: bool) -> (r: Value)
    ensures
        json_of(r) == Json::Bool(b),
{
    Value::from(b)
}

/// How a `u64` reads back as a number.
pub open spec fn number_json(n: u64) -> Json {
    Json::Number {
        unsigned: Some(n),
        signed: if n <= i64::MAX {
            Some(n as i64)
        } else {
            None
        },
    }
}

/// `Value::from` a `u64`.
#[verifier::external_body]
pub(crate) fn from_u64(n: u64) -> (r: Value)
    ensures
        json_of(r) == number_json(n),
{
    Value::from(n)
}

/// `Value::from` a string.
#[verifier::external_body]
pub(crate) fn from_text(s: &str) -> (r: Value)
    ensures
        json_of(r) == Json::Text(s@),
{
    Value::from(s)
}

/// `Value::Array` of a vector.
#[verifier::external_body]
pub(crate) fn from_array(items: Vec<Value>) -> (r: Value)
    ensures
        json_of(r) == Json::Array(jsons(items@)),
{
    Value::Array(items)
}

/// The keys of a list of entries differ.
pub open spec fn keys_differ(entries: Seq<(Seq<char>, Json)>) -> bool {
    forall|i: int, j: int|
        0 <= i < j < entries.len() ==> #[trigger] entries[i].0 != #[trigger] entries[j].0
}

/// `Value::Object` of a map collected from entries with different keys: an
/// object with these members and no others. In which order it walks them is
/// not said.
#[verifier::external_body]
pub(crate) fn from_entries(entries: Vec<(String, Value)>) -> (r: Value)
    requires
        keys_differ(json_entries(entries@)),
    ensures
        json_of(r) is Object,
        forall|key: Seq<char>| #[trigger]
            member(json_of(r), key) == entry_from(json_entries(entries@), key, 0),
{
    Value::Object(entries.into_iter().collect())
}

/// How an `i64` reads back as a number.
pub open spec fn int_json(n: i64) -> Json {
    Json::Number {
        unsigned: if n >= 0 {
            Some(n as u64)
        } else {
            None
        },
        signed: Some(n),
    }
}

/// `Value::from` an `i64`.
#[verifier::external_body]
pub(crate) fn from_i64(n: i64) -> (r: Value)
    ensures
        json_of(r) == int_json(n),
{
    Value::from(n)
}

/// An object with these members and no others.
pub open spec fn is_object(j: Json, entries: Seq<(Seq<char>, Json)>) -> bool {
    j is Object && forall|key: Seq<char>| #[trigger]
        member(j, key) == entry_from(entries, key, 0)
}

pub(crate) fn object0() -> (r: Value)
    ensures
        is_object(json_of(r), Seq::empty()),
{
    let v: Vec<(String, Value)> = Vec::new();
    assert(json_entries(v@) =~= Seq::empty());
    from_entries(v)
}

pub(crate) fn object1(k: &str, v: Value) -> (r: Value)
    ensures
        is_object(json_of(r), seq![(k@, json_of(v))]),
{
    let ghost all = seq![(k@, json_of(v))];
    let mut e: Vec<(String, Value)> = Vec::new();
    e.push((k.to_owned(), v));
    assert(json_entries(e@) =~= all);
    from_entries(e)
}

pub(crate) fn object2(k1: &str, v1: Value, k2: &str, v2: Value) -> (r: Value)
    requires
        k1@ != k2@,
    ensures
        is_object(json_of(r), seq![(k1@, json_of(v1)), (k2@, json_of(v2))]),
{
    let ghost all = seq![(k1@, json_of(v1)), (k2@, json_of(v2))];
    let mut e: Vec<(String, Value)> = Vec::new();
    e.push((k1.to_owned(), v1));
    e.push((k2.to_owned(), v2));
    assert(json_entries(e@) =~= all);
    from_entries(e)
}

pub(crate) fn object3(k1: &str, v1: Value, k2: &str, v2: Value, k3: &str, v3: Value) -> (r: Value)
    requires
        k1@ != k2@,
        k1@ != k3@,
        k2@ != k3@,
    ensures
        is_object(
            json_of(r),
            seq![(k1@, json_of(v1)), (k2@, json_of(v2)), (k3@, json_of(v3))],
        ),
{
    let ghost all = seq![(k1@, json_of(v1)), (k2@, json_of(v2)), (k3@, json_of(v3))];
    let mut e: Vec<(String, Value)> = Vec::new();
    e.push((k1.to_owned(), v1));
    e.push((k2.to_owned(), v2));
    e.push((k3.to_owned(), v3));
    assert(json_entries(e@) =~= all);
    from_entries(e)
}

pub(crate) fn object4(
    k1: &str,
    v1: Value,
    k2: &str,
    v2: Value,
    k3: &str,
    v3: Value,
    k4: &str,
    v4: Value,
) -> (r: Value)
    requires
        k1@ != k2@,
        k1@ != k3@,
        k1@ != k4@,
        k2@ != k3@,
        k2@ != k4@,
        k3@ != k4@,
    ensures
        is_object(
            json_of(r),
            seq![
                (k1@, json_of(v1)),
                (k2@, json_of(v2)),
                (k3@, json_of(v3)),
                (k4@, json_of(v4)),
            ],
        ),
{
    let ghost all = seq![
        (k1@, json_of(v1)),
        (k2@, json_of(v2)),
        (k3@, json_of(v3)),
        (k4@, json_of(v4)),
    ];
    let mut e: Vec<(String, Value)> = Vec::new();
    e.push((k1.to_owned(), v1));
    e.push((k2.to_owned(), v2));
    e.push((k3.to_owned(), v3));
    e.push((k4.to_owned(), v4));
    assert(json_entries(e@) =~= all);
    from_entries(e)
}

} // verus!
