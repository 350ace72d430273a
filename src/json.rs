use vstd::prelude::*;

verus! {

#[verifier::external_type_specification]
#[verifier::external_body]
pub struct ExJsonError(serde_json::Error);

/// Whether serde_json reads `text` as one JSON value: well-formed, and nested
/// no deeper than its recursion limit. This depends on the text alone.
pub uninterp spec fn json_accepts(text: Seq<char>) -> bool;

/// Whether the JSON value that `text` holds is an object.
pub uninterp spec fn json_is_object(text: Seq<char>) -> bool;

/// The string member `key` of the object that `text` holds, if there is one.
pub uninterp spec fn json_str_member(text: Seq<char>, key: Seq<char>) -> Option<Seq<char>>;

/// The compact JSON text of the object that `text` holds after its member
/// `key` is set to the object `{k1: v1, k2: v2}`.
pub uninterp spec fn json_with_member(
    text: Seq<char>,
    key: Seq<char>,
    k1: Seq<char>,
    v1: Seq<char>,
    k2: Seq<char>,
    v2: Seq<char>,
) -> Seq<char>;

/// Relies on serde_json::from_str into a serde_json::Value, then
/// serde_json::Value::get and serde_json::Value::as_str: parsing succeeds
/// exactly on text that serde_json accepts, and the member is read from it.
#[verifier::external_body]
pub(crate) fn read_str_member(text: &str, key: &str) -> (r: Result<Option<String>, serde_json::Error>)
    ensures
        r.is_ok() == json_accepts(text@),
        r.is_ok() ==> (r->Ok_0.is_some() == json_str_member(text@, key@).is_some()),
        r.is_ok() && r->Ok_0.is_some() ==> r->Ok_0->Some_0@ == json_str_member(text@, key@)->Some_0,
{
    let v: serde_json::Value = serde_json::from_str(text)?;
    Ok(v.get(key).and_then(|f| f.as_str()).map(|s| s.to_string()))
}

/// Relies on serde_json::from_str into a serde_json::Value,
/// serde_json::Value::as_object_mut, serde_json::Map::insert and
/// serde_json::to_string. Parsing succeeds exactly on text that serde_json
/// accepts; a value that is not an object gives `None`; serialising a `Value`
/// cannot fail, as its map keys are strings.
#[verifier::external_body]
pub(crate) fn set_object_member(text: &str, key: &str, k1: &str, v1: &str, k2: &str, v2: &str) -> (r: Result<Option<String>, serde_json::Error>)
    ensures
        r.is_ok() == json_accepts(text@),
        r.is_ok() ==> (r->Ok_0.is_some() == json_is_object(text@)),
        r.is_ok() && r->Ok_0.is_some() ==> r->Ok_0->Some_0@ == json_with_member(text@, key@, k1@, v1@, k2@, v2@),
{
    let mut v: serde_json::Value = serde_json::from_str(text)?;
    let mut member = serde_json::Map::new();
    member.insert(k1.to_string(), serde_json::Value::String(v1.to_string()));
    member.insert(k2.to_string(), serde_json::Value::String(v2.to_string()));
    match v.as_object_mut() {
        Some(obj) => obj.insert(key.to_string(), serde_json::Value::Object(member)),
        None => return Ok(None),
    };
    serde_json::to_string(&v).map(Some)
}

} // verus!
