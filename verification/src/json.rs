//! JSON values, as `serde_json` holds them.
use vstd::prelude::*;

verus! {

/// A JSON value.
pub enum Json {
    Null,
    Bool(bool),
    Int(int),
    Text(Seq<char>),
    List(Seq<Json>),
    Fields(Map<Seq<char>, Json>),
    /// A number that is no integer of 64 bits.
    Number(int),
}

/// `serde_json::Value`.
#[verifier::external_type_specification]
#[verifier::external_body]
pub struct ExValue(serde_json::Value);

/// The JSON value that a `serde_json::Value` holds.
pub uninterp spec fn tree(v: serde_json::Value) -> Json;

/// What `serde_json::from_slice` makes of `bytes`: the value that they spell,
/// if they are one JSON text.
pub uninterp spec fn parsed(bytes: Seq<u8>) -> Option<Json>;

/// What `serde_json::to_string` makes of a value: its shortest JSON text.
pub uninterp spec fn spelled(j: Json) -> Seq<char>;

pub open spec fn trees(v: Seq<serde_json::Value>) -> Seq<Json> {
    Seq::new(v.len(), |i: int| tree(v[i]))
}

/// `serde_json::from_slice`: the value that the bytes spell, or none. Which
/// bytes spell which value is left to the name.
#[verifier::external_body]
pub(crate) fn parse(bytes: &[u8]) -> (r: Option<serde_json::Value>)
    ensures
        match r {
            Some(v) => parsed(bytes@) == Some(tree(v)),
            None => parsed(bytes@) is None,
        },
{
    serde_json::from_slice(bytes).ok()
}

/// `serde_json::to_string`: the JSON text of a value. It fails only where a
/// value's own serialisation does, which that of a `Value` never does; so the
/// empty text stands for no value. How a value is spelled is left to the name.
#[verifier::external_body]
pub(crate) fn to_text(v: &serde_json::Value) -> (r: String)
    ensures
        r@ == spelled(tree(*v)),
{
    serde_json::to_string(v).unwrap_or_default()
}

/// `serde_json::Value::get` with a string: the field of that name, if the value
/// has fields and that one is among them.
#[verifier::external_body]
pub(crate) fn get<'a>(v: &'a serde_json::Value, key: &str) -> (r: Option<&'a serde_json::Value>)
    ensures
        match r {
            Some(x) => field(tree(*v), key@) == Some(tree(*x)),
            None => field(tree(*v), key@) is None,
        },
{
    v.get(key)
}

/// The field of that name, if the value has fields and that one is among them.
pub open spec fn field(j: Json, key: Seq<char>) -> Option<Json> {
    match j {
        Json::Fields(m) if m.contains_key(key) => Some(m[key]),
        _ => None,
    }
}

/// `serde_json::Value::as_str`: the text, if the value is one.
#[verifier::external_body]
pub(crate) fn as_str(v: &serde_json::Value) -> (r: Option<&str>)
    ensures
        match r {
            Some(s) => tree(*v) == Json::Text(s@),
            None => !(tree(*v) is Text),
        },
{
    v.as_str()
}

/// `<serde_json::Value as Clone>::clone`: the same value.
#[verifier::external_body]
pub(crate) fn copy(v: &serde_json::Value) -> (r: serde_json::Value)
    ensures
        tree(r) == tree(*v),
{
    v.clone()
}

/// `serde_json::Value::Null`: what stands for nothing.
#[verifier::external_body]
pub(crate) fn null() -> (r: serde_json::Value)
    ensures
        tree(r) == Json::Null,
{
    serde_json::Value::Null
}

/// `serde_json::Value::Bool`: a truth value.
#[verifier::external_body]
pub(crate) fn truth(b: bool) -> (r: serde_json::Value)
    ensures
        tree(r) == Json::Bool(b),
{
    serde_json::Value::Bool(b)
}

/// `<serde_json::Value as From<&str>>::from`: a text.
#[verifier::external_body]
pub(crate) fn text(s: &str) -> (r: serde_json::Value)
    ensures
        tree(r) == Json::Text(s@),
{
    serde_json::Value::from(s)
}

/// `<serde_json::Value as From<u64>>::from`: an integer.
#[verifier::external_body]
pub(crate) fn number(n: u64) -> (r: serde_json::Value)
    ensures
        tree(r) == Json::Int(n as int),
{
    serde_json::Value::from(n)
}

/// `<serde_json::Value as From<i64>>::from`: an integer.
#[verifier::external_body]
pub(crate) fn integer(n: i64) -> (r: serde_json::Value)
    ensures
        tree(r) == Json::Int(n as int),
{
    serde_json::Value::from(n)
}

/// `serde_json::Value::Array`: these values, in order.
#[verifier::external_body]
pub(crate) fn list(v: Vec<serde_json::Value>) -> (r: serde_json::Value)
    ensures
        tree(r) == Json::List(trees(v@)),
{
    serde_json::Value::Array(v)
}

/// `serde_json::Map::new`, as `serde_json::Value::Object`: no field.
#[verifier::external_body]
pub(crate) fn object() -> (r: serde_json::Value)
    ensures
        tree(r) == Json::Fields(Map::empty()),
{
    serde_json::Value::Object(serde_json::Map::new())
}

/// `<serde_json::Value as IndexMut<&str>>::index_mut` on a value with fields:
/// the field of that name is the given value, and every other is as it was.
#[verifier::external_body]
pub(crate) fn put(o: &mut serde_json::Value, key: &str, v: serde_json::Value)
    requires
        tree(*old(o)) is Fields,
    ensures
        tree(*final(o)) == Json::Fields(tree(*old(o))->Fields_0.insert(key@, tree(v))),
{
    o[key] = v;
}

} // verus!
