use vstd::prelude::*;

verus! {

#[verifier::external_type_specification]
#[verifier::external_body]
pub struct ExValue(serde_json::Value);

/// A mathematical JSON tree: the model of what a parsed document holds. A
/// number is `Int` when it is an integer an `i64` can carry, `BigNumber`
/// otherwise.
pub enum JsonModel {
    Null,
    Bool(bool),
    Int(i64),
    BigNumber,
    Text(Seq<char>),
    Array(Seq<JsonModel>),
    Object(Map<Seq<char>, JsonModel>),
}

/// The tree a text parses to, or `None` for a text that is not a JSON
/// document. The parse is a function of the text alone.
pub uninterp spec fn json_of_text(s: Seq<char>) -> Option<JsonModel>;

/// The tree a parsed value holds.
pub uninterp spec fn json_tree(v: serde_json::Value) -> JsonModel;

/// The value under a key of an object; `None` for a missing key or for a
/// tree of any other kind.
pub open spec fn field(j: JsonModel, key: Seq<char>) -> Option<JsonModel> {
    match j {
        JsonModel::Object(m) => if m.contains_key(key) {
            Some(m[key])
        } else {
            None
        },
        _ => None,
    }
}

/// Relies on serde_json::from_str: parses a JSON document into a tree of
/// values; on failure the error's text is handed back instead.
#[verifier::external_body]
pub(crate) fn parse_json(s: &str) -> (r: Result<serde_json::Value, String>)
    ensures
        match r {
            Ok(v) => json_of_text(s@) matches Some(j) && json_tree(v) == j,
            Err(_) => json_of_text(s@) is None,
        },
{
    match serde_json::from_str::<serde_json::Value>(s) {
        Ok(v) => Ok(v),
        Err(e) => Err(e.to_string()),
    }
}

/// Relies on serde_json::Value::get: the value under a key of a JSON object,
/// `None` for a missing key or a value of another kind.
#[verifier::external_body]
pub(crate) fn json_get<'a>(v: &'a serde_json::Value, key: &str) -> (r: Option<
    &'a serde_json::Value,
>)
    ensures
        match r {
            Some(f) => field(json_tree(*v), key@) matches Some(jf) && json_tree(*f) == jf,
            None => field(json_tree(*v), key@) is None,
        },
{
    v.get(key)
}

/// Relies on serde_json::Value::is_null: whether the value is JSON `null`.
#[verifier::external_body]
pub(crate) fn json_is_null(v: &serde_json::Value) -> (r: bool)
    ensures
        r == (json_tree(*v) is Null),
{
    v.is_null()
}

/// Relies on serde_json::Value::as_i64: the value of a JSON integer that
/// fits an `i64`, `None` otherwise.
#[verifier::external_body]
pub(crate) fn json_as_i64(v: &serde_json::Value) -> (r: Option<i64>)
    ensures
        match r {
            Some(n) => json_tree(*v) == JsonModel::Int(n),
            None => !(json_tree(*v) is Int),
        },
{
    v.as_i64()
}

/// Relies on serde_json::Value::as_str: the text of a JSON string, `None`
/// for a value of another kind.
#[verifier::external_body]
pub(crate) fn json_as_str<'a>(v: &'a serde_json::Value) -> (r: Option<&'a str>)
    ensures
        match r {
            Some(t) => json_tree(*v) == JsonModel::Text(t@),
            None => !(json_tree(*v) is Text),
        },
{
    v.as_str()
}

/// Relies on serde_json::Value::as_bool: the value of a JSON boolean, `None`
/// for a value of another kind.
#[verifier::external_body]
pub(crate) fn json_as_bool(v: &serde_json::Value) -> (r: Option<bool>)
    ensures
        match r {
            Some(b) => json_tree(*v) == JsonModel::Bool(b),
            None => !(json_tree(*v) is Bool),
        },
{
    v.as_bool()
}

/// Relies on serde_json::Value::as_array: the elements of a JSON array,
/// `None` for a value of another kind.
#[verifier::external_body]
pub(crate) fn json_as_array<'a>(v: &'a serde_json::Value) -> (r: Option<
    &'a Vec<serde_json::Value>,
>)
    ensures
        match r {
            Some(a) => (json_tree(*v) matches JsonModel::Array(arr) && a@.len() == arr.len()
                && (forall|i: int| 0 <= i < arr.len() ==> json_tree(a@[i]) == arr[i])),
            None => !(json_tree(*v) is Array),
        },
{
    v.as_array()
}

} // verus!
