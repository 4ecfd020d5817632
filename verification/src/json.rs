//! JSON values as the RPC protocol handles them.
//!
//! The values are those of `serde_json`; this module says what each of them
//! holds, and gives a contract to each operation that the protocol uses.

use vstd::prelude::*;

verus! {

#[verifier::external_type_specification]
#[verifier::external_body]
pub struct ExValue(serde_json::Value);

/// A JSON number: an integer that is not negative, a negative integer, or a
/// real number that stands here by the bits of its double.
pub enum Num {
    PosInt(u64),
    NegInt(i64),
    Real(u64),
}

/// What a JSON value holds. The members of an object stand in the order in
/// which they were put in.
pub enum JsonView {
    Null,
    Bool(bool),
    Number(Num),
    String(Seq<char>),
    Array(Seq<JsonView>),
    Object(Seq<(Seq<char>, JsonView)>),
}

/// What `value` holds.
pub uninterp spec fn json_model(value: serde_json::Value) -> JsonView;

/// The value that `text` spells as a JSON document, `None` where it spells
/// none.
pub uninterp spec fn parsed(text: Seq<char>) -> Option<JsonView>;

/// The compact JSON text of a value.
pub uninterp spec fn text_of(value: JsonView) -> Seq<char>;

/// The text that the `Debug` format gives for a list of values.
pub uninterp spec fn debug_of(values: Seq<JsonView>) -> Seq<char>;

/// What each value of a list holds.
pub open spec fn models(values: Seq<serde_json::Value>) -> Seq<JsonView> {
    Seq::new(values.len(), |i: int| json_model(values[i]))
}

/// What each member of a list of members holds.
pub open spec fn member_models(members: Seq<(String, serde_json::Value)>) -> Seq<
    (Seq<char>, JsonView),
> {
    Seq::new(members.len(), |i: int| (members[i].0@, json_model(members[i].1)))
}

/// No two members have the same name.
pub open spec fn distinct_names(members: Seq<(Seq<char>, JsonView)>) -> bool {
    forall|i: int, j: int|
        0 <= i < j < members.len() ==> (#[trigger] members[i]).0 != (#[trigger] members[j]).0
}

/// The member `name` of an object; `None` for a value that is no object or
/// has no such member.
pub open spec fn member(value: JsonView, name: Seq<char>) -> Option<JsonView> {
    match value {
        JsonView::Object(members) => {
            if exists|i: int| 0 <= i < members.len() && (#[trigger] members[i]).0 == name {
                let i = choose|i: int| 0 <= i < members.len() && (#[trigger] members[i]).0 == name;
                Some(members[i].1)
            } else {
                None
            }
        },
        _ => None,
    }
}

/// The JSON number of a signed integer.
pub open spec fn num_of_i64(n: i64) -> Num {
    if n >= 0 {
        Num::PosInt(n as u64)
    } else {
        Num::NegInt(n)
    }
}

/// `serde_json::Value::Null`.
#[verifier::external_body]
pub(crate) fn json_null() -> (value: serde_json::Value)
    ensures
        json_model(value) == JsonView::Null,
{
    serde_json::Value::Null
}

/// `From<u64>` of `serde_json::Value`: the number `n`, held as an integer.
#[verifier::external_body]
pub(crate) fn json_u64(n: u64) -> (value: serde_json::Value)
    ensures
        json_model(value) == JsonView::Number(Num::PosInt(n)),
{
    serde_json::Value::from(n)
}

/// `From<i64>` of `serde_json::Value`: the number `n`, held as an integer
/// that is not negative where `n` is not.
#[verifier::external_body]
pub(crate) fn json_i64(n: i64) -> (value: serde_json::Value)
    ensures
        json_model(value) == JsonView::Number(num_of_i64(n)),
{
    serde_json::Value::from(n)
}

/// `serde_json::Number::from_f64` on zero: the real number `0.0`.
#[verifier::external_body]
pub(crate) fn json_zero_real() -> (value: serde_json::Value)
    ensures
        json_model(value) == JsonView::Number(Num::Real(0)),
{
    match serde_json::Number::from_f64(0u8.into()) {
        Some(n) => serde_json::Value::Number(n),
        None => serde_json::Value::Null,
    }
}

/// `serde_json::Value::String` on a copy of `s`.
#[verifier::external_body]
pub(crate) fn json_string(s: &str) -> (value: serde_json::Value)
    ensures
        json_model(value) == JsonView::String(s@),
{
    serde_json::Value::String(s.to_owned())
}

/// `serde_json::Value::Array`.
#[verifier::external_body]
pub(crate) fn json_array(items: Vec<serde_json::Value>) -> (value: serde_json::Value)
    ensures
        json_model(value) == JsonView::Array(models(items@)),
{
    serde_json::Value::Array(items)
}

/// `serde_json::Value::Object` on the map that `FromIterator` of
/// `serde_json::Map` collects: the members in the order given. Names that
/// come twice would be merged, so they are left out by `requires`.
#[verifier::external_body]
pub(crate) fn json_object(members: Vec<(String, serde_json::Value)>) -> (value: serde_json::Value)
    requires
        distinct_names(member_models(members@)),
    ensures
        json_model(value) == JsonView::Object(member_models(members@)),
{
    serde_json::Value::Object(members.into_iter().collect())
}

/// `Clone` of `serde_json::Value`.
#[verifier::external_body]
pub(crate) fn json_clone(value: &serde_json::Value) -> (copy: serde_json::Value)
    ensures
        json_model(copy) == json_model(*value),
{
    value.clone()
}

/// `serde_json::Value::get` with a name: the member of an object.
#[verifier::external_body]
pub(crate) fn json_get<'a>(value: &'a serde_json::Value, name: &str) -> (found: Option<
    &'a serde_json::Value,
>)
    ensures
        match found {
            Some(v) => member(json_model(*value), name@) == Some(json_model(*v)),
            None => member(json_model(*value), name@) is None,
        },
{
    value.get(name)
}

/// `serde_json::Value::as_str`: the text of a string.
#[verifier::external_body]
pub(crate) fn json_as_str<'a>(value: &'a serde_json::Value) -> (text: Option<&'a str>)
    ensures
        match text {
            Some(s) => json_model(*value) == JsonView::String(s@),
            None => !(json_model(*value) is String),
        },
{
    value.as_str()
}

/// `serde_json::Value::as_u64`: the value of an integer that is not
/// negative.
#[verifier::external_body]
pub(crate) fn json_as_u64(value: &serde_json::Value) -> (n: Option<u64>)
    ensures
        match n {
            Some(n) => json_model(*value) == JsonView::Number(Num::PosInt(n)),
            None => !(json_model(*value) matches JsonView::Number(Num::PosInt(_))),
        },
{
    value.as_u64()
}

/// `serde_json::Value::as_bool`.
#[verifier::external_body]
pub(crate) fn json_as_bool(value: &serde_json::Value) -> (b: Option<bool>)
    ensures
        match b {
            Some(b) => json_model(*value) == JsonView::Bool(b),
            None => !(json_model(*value) is Bool),
        },
{
    value.as_bool()
}

/// `serde_json::Value::is_number`.
#[verifier::external_body]
pub(crate) fn json_is_number(value: &serde_json::Value) -> (yes: bool)
    ensures
        yes == (json_model(*value) is Number),
{
    value.is_number()
}

/// `serde_json::Value::as_array`: the items of an array.
#[verifier::external_body]
pub(crate) fn json_as_array<'a>(value: &'a serde_json::Value) -> (items: Option<
    &'a Vec<serde_json::Value>,
>)
    ensures
        match items {
            Some(v) => json_model(*value) == JsonView::Array(models(v@)),
            None => !(json_model(*value) is Array),
        },
{
    value.as_array()
}

/// `serde_json::from_str` to a `serde_json::Value`. Whether a text is a
/// JSON document, and which, is the parser's to say; the contract names it.
#[verifier::external_body]
pub(crate) fn json_parse(text: &str) -> (value: Option<serde_json::Value>)
    ensures
        match value {
            Some(v) => parsed(text@) == Some(json_model(v)),
            None => parsed(text@) is None,
        },
{
    serde_json::from_str::<serde_json::Value>(text).ok()
}

/// `Display` of `serde_json::Value`: the compact JSON text.
#[verifier::external_body]
pub(crate) fn json_text(value: &serde_json::Value) -> (text: String)
    ensures
        text@ == text_of(json_model(*value)),
{
    value.to_string()
}

/// `Debug` of a list of `serde_json::Value`, which for no values is `[]`.
#[verifier::external_body]
pub(crate) fn json_debug(values: &Vec<serde_json::Value>) -> (text: String)
    ensures
        text@ == debug_of(models(values@)),
        values@.len() == 0 ==> text@ == "[]"@,
{
    format!("{:?}", values)
}

} // verus!
