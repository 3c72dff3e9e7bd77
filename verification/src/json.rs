//! JSON values, as the crate `serde_json` holds, reads and writes them.

use vstd::prelude::*;
use vstd::string::*;

use crate::text::decimal;

verus! {

/// What a JSON value holds. A number is known by its compact text.
pub enum Json {
    Null,
    Bool(bool),
    Number(Seq<char>),
    Text(Seq<char>),
    Array(Seq<Json>),
    Object(Map<Seq<char>, Json>),
}

/// A JSON value of `serde_json`. It is opaque; `json_tree` says what it holds.
#[verifier::external_type_specification]
#[verifier::external_body]
pub struct ExValue(serde_json::Value);

/// The error of `serde_json`, carried as it is.
#[verifier::external_type_specification]
#[verifier::external_body]
pub struct ExJsonError(serde_json::Error);

/// What the value `v` holds.
pub uninterp spec fn json_tree(v: serde_json::Value) -> Json;

/// What `serde_json::from_str` finds in a text: none, where it is no JSON value.
pub uninterp spec fn parsed_json(text: Seq<char>) -> Option<Json>;

/// The compact text that `serde_json::to_string` writes for a value.
pub uninterp spec fn json_text(tree: Json) -> Seq<char>;

/// The compact text of a value.
pub open spec fn compact(tree: Json) -> Seq<char> {
    match tree {
        Json::Number(text) => text,
        _ => json_text(tree),
    }
}

/// The member `key`, where `tree` is an object that has one.
pub open spec fn json_member(tree: Json, key: Seq<char>) -> Option<Json> {
    match tree {
        Json::Object(members) => if members.contains_key(key) {
            Some(members[key])
        } else {
            None
        },
        _ => None,
    }
}

/// A truth value, a string, or an unsigned integer of 64 bits.
pub open spec fn is_simple(tree: Json) -> bool {
    match tree {
        Json::Bool(_) => true,
        Json::Text(_) => true,
        Json::Number(text) => exists|n: u64| text == #[trigger] decimal(n as nat),
        _ => false,
    }
}

/// An object whose members are simple.
pub open spec fn is_flat(tree: Json) -> bool {
    tree matches Json::Object(members) && forall|k: Seq<char>| #[trigger]
        members.contains_key(k) ==> is_simple(members[k])
}

/// An object whose members are simple or flat.
pub open spec fn is_two_level(tree: Json) -> bool {
    tree matches Json::Object(members) && forall|k: Seq<char>| #[trigger]
        members.contains_key(k) ==> is_simple(members[k]) || is_flat(members[k])
}

/// `serde_json::from_str`, for a value of any kind: the result depends on the text alone.
#[verifier::external_body]
pub(crate) fn parse_json(text: &str) -> (r: Result<serde_json::Value, serde_json::Error>)
    ensures
        r is Ok <==> parsed_json(text@) is Some,
        r matches Ok(v) ==> parsed_json(text@) == Some(json_tree(v)),
{
    serde_json::from_str(text)
}

/// `serde_json::to_string`: a value is always written, as its compact text. The text of a
/// value with at most two levels, and no other numbers than unsigned integers of 64 bits,
/// reads back as that value.
#[verifier::external_body]
pub(crate) fn render_json(v: &serde_json::Value) -> (r: Result<String, serde_json::Error>)
    ensures
        r is Ok,
        r matches Ok(text) ==> text@ == (match json_tree(*v) {
            Json::Number(t) => t,
            tree => json_text(tree),
        }),
        r matches Ok(text) ==> (is_two_level(json_tree(*v)) ==> parsed_json(text@) == Some(
            json_tree(*v),
        )),
{
    serde_json::to_string(v)
}

/// `serde_json::Value::get`, with a string: the member of that name, where the value is an
/// object that has one.
#[verifier::external_body]
pub(crate) fn get_member<'a>(v: &'a serde_json::Value, key: &str) -> (r: Option<
    &'a serde_json::Value,
>)
    ensures
        r is Some <==> json_member(json_tree(*v), key@) is Some,
        r matches Some(m) ==> json_member(json_tree(*v), key@) == Some(json_tree(*m)),
{
    v.get(key)
}

/// `serde_json::Value::as_str`: the string, where the value is one.
pub assume_specification[ serde_json::Value::as_str ](v: &serde_json::Value) -> (r: Option<&str>)
    ensures
        r is Some <==> json_tree(*v) is Text,
        r matches Some(s) ==> json_tree(*v) == Json::Text(s@),
;

/// `serde_json::Map::new`, made a value: an object without members.
#[verifier::external_body]
pub(crate) fn empty_object() -> (r: serde_json::Value)
    ensures
        json_tree(r) == Json::Object(Map::empty()),
{
    serde_json::Value::Object(serde_json::Map::new())
}

/// `IndexMut::index_mut` of `serde_json::Value`, with a string, on an object: the member of
/// that name becomes `member`, whether there was one or not.
#[verifier::external_body]
pub(crate) fn set_member(v: &mut serde_json::Value, key: &str, member: serde_json::Value)
    requires
        json_tree(*old(v)) is Object,
    ensures
        json_tree(*final(v)) == Json::Object(
            json_tree(*old(v))->Object_0.insert(key@, json_tree(member)),
        ),
{
    v[key] = member;
}

/// `From<bool>` of `serde_json::Value`: the truth value.
#[verifier::external_body]
pub(crate) fn bool_value(b: bool) -> (r: serde_json::Value)
    ensures
        json_tree(r) == Json::Bool(b),
{
    serde_json::Value::from(b)
}

/// `From<u64>` of `serde_json::Value`: the number, whose compact text is its decimal text.
#[verifier::external_body]
pub(crate) fn number_value(n: u64) -> (r: serde_json::Value)
    ensures
        json_tree(r) == Json::Number(decimal(n as nat)),
{
    serde_json::Value::from(n)
}

/// `From<&str>` of `serde_json::Value`: the string.
#[verifier::external_body]
pub(crate) fn text_value(s: &str) -> (r: serde_json::Value)
    ensures
        json_tree(r) == Json::Text(s@),
{
    serde_json::Value::from(s)
}

/// An object has the members that it holds, and no other value has any.
pub proof fn law_members_of_values(tree: Json, members: Map<Seq<char>, Json>, key: Seq<char>)
    ensures
        json_member(Json::Object(members), key) is Some <==> members.contains_key(key),
        members.contains_key(key) ==> json_member(Json::Object(members), key) == Some(members[key]),
        !(tree is Object) ==> json_member(tree, key) is None,
{
}

/// The compact text of a number is the number as it is written; of any other value it is
/// what is written for that value.
pub proof fn law_compact_texts(tree: Json, n: nat)
    ensures
        compact(Json::Number(decimal(n))) == decimal(n),
        !(tree is Number) ==> compact(tree) == json_text(tree),
{
}

} // verus!
