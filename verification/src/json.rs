//! JSON values, by way of the `serde_json` crate.
use crate::text::decimal;
use vstd::prelude::*;
use vstd::string::*;

verus! {

/// A JSON value of the `serde_json` crate.
#[verifier::external_type_specification]
#[verifier::external_body]
pub struct ExValue(serde_json::Value);

/// What a JSON value holds.
pub ghost enum JsonView {
    Null,
    Bool(bool),
    /// A number, in its usual notation.
    Number(Seq<char>),
    Text(Seq<char>),
    List(Seq<JsonView>),
    Object(Map<Seq<char>, JsonView>),
}

/// What a value holds.
pub uninterp spec fn json_model(v: serde_json::Value) -> JsonView;

/// What a text in JSON denotes, or the message for a text that is none.
pub uninterp spec fn json_document(text: Seq<u8>) -> Result<JsonView, Seq<char>>;

/// The text in JSON of a value.
pub uninterp spec fn json_bytes(v: JsonView) -> Seq<u8>;

/// Reads a text in JSON.
///
/// Calls `serde_json::from_slice`, and renders its error as text. The contract
/// names what comes of the bytes.
#[verifier::external_body]
pub(crate) fn json_parse(text: &[u8]) -> (r: Result<serde_json::Value, String>)
    ensures
        match r {
            Ok(v) => json_document(text@) == Ok::<JsonView, Seq<char>>(json_model(v)),
            Err(e) => json_document(text@) == Err::<JsonView, Seq<char>>(e@),
        },
{
    serde_json::from_slice(text).map_err(|e| e.to_string())
}

/// Writes a value as text.
///
/// Calls `serde_json::to_vec`, and renders its error as text. The contract
/// names the bytes, and says that there is no error: the keys of a value are
/// texts, and writing to a vector does not fail.
#[verifier::external_body]
pub(crate) fn json_render(v: &serde_json::Value) -> (r: Result<Vec<u8>, String>)
    ensures
        match r {
            Ok(b) => b@ == json_bytes(json_model(*v)),
            Err(_) => false,
        },
{
    serde_json::to_vec(v).map_err(|e| e.to_string())
}

/// The field of an object.
///
/// Calls `serde_json::Value::get` with a text. The contract says that it gives
/// the field of that name of an object that has one, and else nothing.
#[verifier::external_body]
pub(crate) fn json_field<'a>(v: &'a serde_json::Value, key: &str) -> (r: Option<
    &'a serde_json::Value,
>)
    ensures
        match json_model(*v) {
            JsonView::Object(m) if m.contains_key(key@) => r matches Some(x) && json_model(*x)
                == m[key@],
            _ => r is None,
        },
{
    v.get(key)
}

/// Whether a value is null.
///
/// Calls `serde_json::Value::is_null`.
#[verifier::external_body]
pub(crate) fn json_is_null(v: &serde_json::Value) -> (r: bool)
    ensures
        r == (json_model(*v) is Null),
{
    v.is_null()
}

/// The text of a value that is a text.
///
/// Calls `serde_json::Value::as_str`.
#[verifier::external_body]
pub(crate) fn json_as_text<'a>(v: &'a serde_json::Value) -> (r: Option<&'a str>)
    ensures
        match json_model(*v) {
            JsonView::Text(t) => r matches Some(s) && s@ == t,
            _ => r is None,
        },
{
    v.as_str()
}

/// A copy of a value.
///
/// Calls the `Clone` of `serde_json::Value`.
#[verifier::external_body]
pub(crate) fn json_copy(v: &serde_json::Value) -> (r: serde_json::Value)
    ensures
        json_model(r) == json_model(*v),
{
    v.clone()
}

/// The null value.
///
/// Makes a `serde_json::Value::Null`.
#[verifier::external_body]
pub(crate) fn json_null() -> (r: serde_json::Value)
    ensures
        json_model(r) == JsonView::Null,
{
    serde_json::Value::Null
}

/// A truth value.
///
/// Makes a `serde_json::Value::Bool`.
#[verifier::external_body]
pub(crate) fn json_bool(b: bool) -> (r: serde_json::Value)
    ensures
        json_model(r) == JsonView::Bool(b),
{
    serde_json::Value::Bool(b)
}

/// A number.
///
/// Calls the `From<u64>` of `serde_json::Value`.
#[verifier::external_body]
pub(crate) fn json_number(n: u64) -> (r: serde_json::Value)
    ensures
        json_model(r) == JsonView::Number(decimal(n as nat)),
{
    serde_json::Value::from(n)
}

/// A text.
///
/// Makes a `serde_json::Value::String`.
#[verifier::external_body]
pub(crate) fn json_text(s: String) -> (r: serde_json::Value)
    ensures
        json_model(r) == JsonView::Text(s@),
{
    serde_json::Value::String(s)
}

/// A list.
///
/// Makes a `serde_json::Value::Array`.
#[verifier::external_body]
pub(crate) fn json_list(items: Vec<serde_json::Value>) -> (r: serde_json::Value)
    ensures
        json_model(r) == JsonView::List(items@.map_values(|v: serde_json::Value| json_model(v))),
{
    serde_json::Value::Array(items)
}

/// An object without fields.
///
/// Makes a `serde_json::Value::Object` of a `serde_json::Map::new`.
#[verifier::external_body]
pub(crate) fn json_object() -> (r: serde_json::Value)
    ensures
        json_model(r) == JsonView::Object(Map::empty()),
{
    serde_json::Value::Object(serde_json::Map::new())
}

/// Sets a field of an object.
///
/// Assigns through the `IndexMut` of `serde_json::Value`, which panics on
/// anything but an object or null.
#[verifier::external_body]
pub(crate) fn json_set(v: &mut serde_json::Value, key: &str, x: serde_json::Value)
    requires
        json_model(*old(v)) is Object,
    ensures
        json_model(*final(v)) == JsonView::Object(
            json_model(*old(v))->Object_0.insert(key@, json_model(x)),
        ),
{
    v[key] = x;
}

/// Sets a field of an object to a text.
pub(crate) fn json_set_text(v: &mut serde_json::Value, key: &str, s: String)
    requires
        json_model(*old(v)) is Object,
    ensures
        json_model(*final(v)) == JsonView::Object(
            json_model(*old(v))->Object_0.insert(key@, JsonView::Text(s@)),
        ),
{
    json_set(v, key, json_text(s));
}

/// Sets a field of an object to a number.
pub(crate) fn json_set_number(v: &mut serde_json::Value, key: &str, n: u64)
    requires
        json_model(*old(v)) is Object,
    ensures
        json_model(*final(v)) == JsonView::Object(
            json_model(*old(v))->Object_0.insert(key@, JsonView::Number(decimal(n as nat))),
        ),
{
    json_set(v, key, json_number(n));
}

/// Sets a field of an object to a truth value.
pub(crate) fn json_set_bool(v: &mut serde_json::Value, key: &str, b: bool)
    requires
        json_model(*old(v)) is Object,
    ensures
        json_model(*final(v)) == JsonView::Object(
            json_model(*old(v))->Object_0.insert(key@, JsonView::Bool(b)),
        ),
{
    json_set(v, key, json_bool(b));
}

} // verus!
