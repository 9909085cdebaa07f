//! JSON values of `serde_json`, and what they hold.

use vstd::prelude::*;
use vstd::string::*;

use crate::text;

verus! {

/// A JSON number: what it is as an unsigned integer, where it is one, and how it is printed.
pub struct JsonNumber {
    pub unsigned: Option<u64>,
    pub text: Seq<char>,
}

/// What a JSON value holds.
#[verifier::ext_equal]
pub enum Json {
    Null,
    Bool(bool),
    Number(JsonNumber),
    Text(Seq<char>),
    Array(Seq<Json>),
    Object(Map<Seq<char>, Json>),
}

/// `serde_json::Value`, a JSON value.
#[verifier::external_type_specification]
#[verifier::external_body]
pub struct ExValue(serde_json::Value);

/// What a `serde_json::Value` holds.
pub uninterp spec fn json(value: serde_json::Value) -> Json;

/// What `serde_json::from_slice` reads from bytes; nothing where they are no JSON text.
pub uninterp spec fn parsed_json(bytes: Seq<u8>) -> Option<Json>;

/// The compact text that a `serde_json::Value` prints as.
pub uninterp spec fn json_text(value: Json) -> Seq<char>;

/// Whether `serde_json` takes two values for equal.
pub uninterp spec fn json_equal(a: Json, b: Json) -> bool;

/// The member of an object under `key`.
pub open spec fn member(value: Json, key: Seq<char>) -> Option<Json> {
    match value {
        Json::Object(members) => if members.contains_key(key) {
            Some(members[key])
        } else {
            None
        },
        _ => None,
    }
}

/// The text that a value is, where it is one.
pub open spec fn text_of(value: Json) -> Option<Seq<char>> {
    match value {
        Json::Text(text) => Some(text),
        _ => None,
    }
}

/// The unsigned integer that a value is, where it is one.
pub open spec fn unsigned_of(value: Json) -> Option<u64> {
    match value {
        Json::Number(number) => number.unsigned,
        _ => None,
    }
}

/// The truth value that a value is, where it is one.
pub open spec fn bool_of(value: Json) -> Option<bool> {
    match value {
        Json::Bool(b) => Some(b),
        _ => None,
    }
}

/// The text under `key`.
pub open spec fn text_member(value: Json, key: Seq<char>) -> Option<Seq<char>> {
    match member(value, key) {
        Some(found) => text_of(found),
        None => None,
    }
}

/// What the values of a vector hold.
pub open spec fn json_seq(values: Seq<serde_json::Value>) -> Seq<Json> {
    values.map_values(|v: serde_json::Value| json(v))
}

/// What the entries of an object hold.
pub open spec fn entry_views(entries: Seq<(String, serde_json::Value)>) -> Seq<(Seq<char>, Json)> {
    entries.map_values(|e: (String, serde_json::Value)| (e.0@, json(e.1)))
}

/// The members that entries make up; of two under one key the later counts.
pub open spec fn members_of(entries: Seq<(Seq<char>, Json)>) -> Map<Seq<char>, Json>
    decreases entries.len(),
{
    if entries.len() == 0 {
        Map::empty()
    } else {
        members_of(entries.drop_last()).insert(entries.last().0, entries.last().1)
    }
}

/// The last entry under a key is the member under it.
pub proof fn lemma_member_of(entries: Seq<(Seq<char>, Json)>, k: int)
    requires
        0 <= k < entries.len(),
        forall|j: int| k < j < entries.len() ==> (#[trigger] entries[j]).0 != entries[k].0,
    ensures
        members_of(entries).contains_key(entries[k].0),
        members_of(entries)[entries[k].0] == entries[k].1,
    decreases entries.len(),
{
    if k < entries.len() - 1 {
        assert(entries.drop_last()[k] == entries[k]);
        assert forall|j: int| k < j < entries.drop_last().len() implies (
        #[trigger] entries.drop_last()[j]).0 != entries[k].0 by {
            assert(entries.drop_last()[j] == entries[j]);
        }
        lemma_member_of(entries.drop_last(), k);
        assert(entries[entries.len() - 1].0 != entries[k].0);
    }
}

/// The object that entries make up.
pub open spec fn object_of(entries: Seq<(Seq<char>, Json)>) -> Json {
    Json::Object(members_of(entries))
}

/// The JSON number of an unsigned integer.
pub open spec fn number_of(n: u64) -> Json {
    Json::Number(JsonNumber { unsigned: Some(n), text: text::decimal(n as nat) })
}

/// `serde_json::Value::clone`: the copy holds what the value holds.
pub assume_specification[ <serde_json::Value as Clone>::clone ](
    value: &serde_json::Value,
) -> (r: serde_json::Value)
    ensures
        json(r) == json(*value),
;

/// `serde_json::from_slice`: the value read from the bytes, or its refusal, as a function of the
/// bytes.
#[verifier::external_body]
pub(crate) fn parse_json(bytes: &[u8]) -> (r: Option<serde_json::Value>)
    ensures
        match r {
            Some(value) => parsed_json(bytes@) == Some(json(value)),
            None => parsed_json(bytes@) is None,
        },
{
    serde_json::from_slice(bytes).ok()
}

/// `serde_json::Value::get` with a key: the member of an object, and nothing of any other value.
#[verifier::external_body]
pub(crate) fn get<'a>(value: &'a serde_json::Value, key: &str) -> (r: Option<&'a serde_json::Value>)
    ensures
        match r {
            Some(found) => member(json(*value), key@) == Some(json(*found)),
            None => member(json(*value), key@) is None,
        },
{
    value.get(key)
}

/// `serde_json::Value::as_str`: the text of a JSON string, and nothing of any other value.
#[verifier::external_body]
pub(crate) fn as_str(value: &serde_json::Value) -> (r: Option<&str>)
    ensures
        match r {
            Some(text) => text_of(json(*value)) == Some(text@),
            None => text_of(json(*value)) is None,
        },
{
    value.as_str()
}

/// `serde_json::Value::as_u64`: the number where it is an unsigned integer.
#[verifier::external_body]
pub(crate) fn as_u64(value: &serde_json::Value) -> (r: Option<u64>)
    ensures
        r == unsigned_of(json(*value)),
{
    value.as_u64()
}

/// `serde_json::Value::as_bool`: the truth value of a JSON boolean.
#[verifier::external_body]
pub(crate) fn as_bool(value: &serde_json::Value) -> (r: Option<bool>)
    ensures
        r == bool_of(json(*value)),
{
    value.as_bool()
}

/// `serde_json::Value::as_array`: the elements of a JSON array in their order.
#[verifier::external_body]
pub(crate) fn as_array(value: &serde_json::Value) -> (r: Option<&Vec<serde_json::Value>>)
    ensures
        match r {
            Some(items) => json(*value) == Json::Array(json_seq(items@)),
            None => !(json(*value) is Array),
        },
{
    value.as_array()
}

/// `serde_json::Value::to_string`: the compact text of the value, as a function of what it holds.
#[verifier::external_body]
pub(crate) fn to_text(value: &serde_json::Value) -> (r: String)
    ensures
        r@ == json_text(json(*value)),
{
    value.to_string()
}

/// `==` on `serde_json::Value`, as a function of what the two hold; it holds of equal contents.
#[verifier::external_body]
pub(crate) fn equal(a: &serde_json::Value, b: &serde_json::Value) -> (r: bool)
    ensures
        r == json_equal(json(*a), json(*b)),
        json(*a) == json(*b) ==> r,
{
    a == b
}

/// `serde_json::Value::String`: the JSON string of a text.
#[verifier::external_body]
pub(crate) fn text_value(text: String) -> (r: serde_json::Value)
    ensures
        json(r) == Json::Text(text@),
{
    serde_json::Value::String(text)
}

/// `serde_json::Value::Array`: the JSON array of some values.
#[verifier::external_body]
pub(crate) fn array_value(items: Vec<serde_json::Value>) -> (r: serde_json::Value)
    ensures
        json(r) == Json::Array(json_seq(items@)),
{
    serde_json::Value::Array(items)
}

/// `serde_json::Value::Bool`: the JSON boolean of a truth value.
#[verifier::external_body]
pub(crate) fn bool_value(value: bool) -> (r: serde_json::Value)
    ensures
        json(r) == Json::Bool(value),
{
    serde_json::Value::Bool(value)
}

/// `serde_json::Map::new`, as a JSON object without members.
#[verifier::external_body]
pub(crate) fn empty_object() -> (r: serde_json::Value)
    ensures
        json(r) == Json::Object(Map::empty()),
{
    serde_json::Value::Object(serde_json::Map::new())
}

/// The object of some entries; of two under one key the later counts.
pub(crate) fn object_value(entries: Vec<(String, serde_json::Value)>) -> (r: serde_json::Value)
    ensures
        json(r) == object_of(entry_views(entries@)),
{
    let ghost all = entry_views(entries@);
    let mut rest = entries;
    let mut value = empty_object();
    let ghost mut done: int = 0;
    assert(all.take(0) =~= Seq::<(Seq<char>, Json)>::empty());
    assert(all.skip(0) =~= all);
    while rest.len() > 0
        invariant
            0 <= done <= all.len(),
            rest@.len() == all.len() - done,
            entry_views(rest@) == all.skip(done),
            json(value) == object_of(all.take(done)),
        decreases rest@.len(),
    {
        let ghost left = rest@;
        let (key, member) = rest.remove(0);
        set_member(&mut value, &key, member);
        proof {
            assert(all.skip(done)[0] == all[done]);
            assert(entry_views(left)[0] == (key@, json(member)));
            assert forall|k: int| 0 <= k < rest@.len() implies #[trigger] entry_views(rest@)[k]
                == all.skip(done + 1)[k] by {
                assert(entry_views(left)[k + 1] == all.skip(done)[k + 1]);
            }
            assert(entry_views(rest@) =~= all.skip(done + 1));
            assert(all.take(done + 1).drop_last() =~= all.take(done));
            done = done + 1;
        }
    }
    assert(all.take(done) =~= all);
    value
}

/// `serde_json::Value::from` of a `u64`: the JSON number of the integer.
#[verifier::external_body]
pub(crate) fn number_value(n: u64) -> (r: serde_json::Value)
    ensures
        json(r) == number_of(n),
{
    serde_json::Value::from(n)
}

/// `serde_json::Value::Null`, the JSON null.
#[verifier::external_body]
pub(crate) fn null_value() -> (r: serde_json::Value)
    ensures
        json(r) == Json::Null,
{
    serde_json::Value::Null
}

/// Assignment through the index of a `serde_json::Value`: the member of an object is set; a null
/// becomes an object with this member. Any other value would panic.
#[verifier::external_body]
pub(crate) fn set_member(value: &mut serde_json::Value, key: &str, member: serde_json::Value)
    requires
        json(*old(value)) is Object || json(*old(value)) is Null,
    ensures
        json(*final(value)) == Json::Object(
            (match json(*old(value)) {
                Json::Object(members) => members,
                _ => Map::empty(),
            }).insert(key@, json(member)),
        ),
{
    value[key] = member;
}

/// `serde_json::Value::is_object`: whether the value is an object.
#[verifier::external_body]
pub(crate) fn is_object(value: &serde_json::Value) -> (r: bool)
    ensures
        r == (json(*value) is Object),
{
    value.is_object()
}

/// `serde_json::Value::is_null`: whether the value is null.
#[verifier::external_body]
pub(crate) fn is_null(value: &serde_json::Value) -> (r: bool)
    ensures
        r == (json(*value) is Null),
{
    value.is_null()
}

/// An entry of an object.
pub(crate) fn entry(key: &str, value: serde_json::Value) -> (r: (String, serde_json::Value))
    ensures
        r.0@ == key@,
        r.1 == value,
{
    (String::from_str(key), value)
}

/// The JSON string of a text.
pub(crate) fn text_entry(key: &str, value: &str) -> (r: (String, serde_json::Value))
    ensures
        r.0@ == key@,
        json(r.1) == Json::Text(value@),
{
    (String::from_str(key), text_value(String::from_str(value)))
}

} // verus!
