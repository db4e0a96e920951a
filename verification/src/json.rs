//! The JSON texts of the control channel, written and read by serde_json:
//! requests and responses, lists of repository names, requests for a tree,
//! and history updates. The names of the members come from the callers.

use vstd::prelude::*;
use crate::path::views;
use crate::tree::updates_view;

verus! {

/// The JSON text that serde_json writes for a list of names.
pub uninterp spec fn json_of_names(names: Seq<Seq<char>>) -> Seq<u8>;

/// The list of names that serde_json reads from a JSON text, if it reads
/// one.
pub uninterp spec fn names_of_json(bytes: Seq<u8>) -> Option<Seq<Seq<char>>>;

/// The JSON text that serde_json writes for an object with the text
/// `name` under `name_key` and the number `version` under `version_key`.
pub uninterp spec fn json_of_tree_request(
    name_key: Seq<char>,
    name: Seq<char>,
    version_key: Seq<char>,
    version: int,
) -> Seq<u8>;

/// The text that a JSON object holds under `key`, as serde_json reads it:
/// None where the bytes are no JSON object, Some(None) where the object has
/// no text under `key`.
pub uninterp spec fn json_text_field(bytes: Seq<u8>, key: Seq<char>) -> Option<Option<Seq<char>>>;

/// The unsigned number that a JSON object holds under `key`, as serde_json
/// reads it: None where the bytes are no JSON object, Some(None) where the
/// object has no such number under `key`.
pub uninterp spec fn json_number_field(bytes: Seq<u8>, key: Seq<char>) -> Option<Option<u64>>;

/// The JSON text that serde_json writes for a map from indices to history
/// entries.
pub uninterp spec fn json_of_updates(updates: Seq<(int, Seq<char>)>) -> Seq<u8>;

/// The map from indices to history entries that serde_json reads from a
/// JSON text, lowest index first, if it reads one.
pub uninterp spec fn updates_of_json(bytes: Seq<u8>) -> Option<Seq<(int, Seq<char>)>>;

/// The JSON text that serde_json writes for an object with the text `tag`
/// under `tag_key` and the bytes of `body`, as an array of numbers, under
/// `body_key`.
pub uninterp spec fn json_of_request(
    tag_key: Seq<char>,
    tag: Seq<char>,
    body_key: Seq<char>,
    body: Seq<u8>,
) -> Seq<u8>;

/// What serde_json reads from a JSON text as a request: the text under
/// `tag_key` and the bytes under `body_key`. None where the text is no
/// object that holds both.
pub uninterp spec fn request_of_json(bytes: Seq<u8>, tag_key: Seq<char>, body_key: Seq<char>) -> Option<
    (Seq<char>, Seq<u8>),
>;

/// The JSON text that serde_json writes for an object with the text `tag`
/// under `tag_key`, the text `message` under `message_key` and the bytes
/// of `body`, as an array of numbers, under `body_key`.
pub uninterp spec fn json_of_response(
    tag_key: Seq<char>,
    tag: Seq<char>,
    message_key: Seq<char>,
    message: Seq<char>,
    body_key: Seq<char>,
    body: Seq<u8>,
) -> Seq<u8>;

/// What serde_json reads from a JSON text as a response: the texts under
/// `tag_key` and `message_key` and the bytes under `body_key`. None where
/// the text is no object that holds the three.
pub uninterp spec fn response_of_json(
    bytes: Seq<u8>,
    tag_key: Seq<char>,
    message_key: Seq<char>,
    body_key: Seq<char>,
) -> Option<(Seq<char>, Seq<char>, Seq<u8>)>;

/// Whether the indices of `updates` rise strictly.
pub open spec fn rising(updates: Seq<(int, Seq<char>)>) -> bool {
    forall|i: int, j: int| 0 <= i < j < updates.len() ==> updates[i].0 < updates[j].0
}

/// `serde_json::to_vec` on a `Vec<String>`: a JSON array of strings. The
/// call fails only where a value refuses to be written or a map has a key
/// that is no text, and a list of texts does neither.
#[verifier::external_body]
pub(crate) fn names_to_json(names: &Vec<String>) -> (out: Option<Vec<u8>>)
    ensures
        out is Some,
        out matches Some(bytes) ==> bytes@ == json_of_names(views(names@)),
{
    serde_json::to_vec(names).ok()
}

/// `serde_json::from_slice` for a `Vec<String>`.
#[verifier::external_body]
pub(crate) fn names_from_json(bytes: &[u8]) -> (out: Option<Vec<String>>)
    ensures
        match out {
            Some(names) => names_of_json(bytes@) == Some(views(names@)),
            None => names_of_json(bytes@) is None,
        },
{
    serde_json::from_slice::<Vec<String>>(bytes).ok()
}

/// `serde_json::to_vec` on a `serde_json::Value` that is an object of two
/// members: the text `name` under `name_key` and the number `version`
/// under `version_key`. Such a value is always written.
#[verifier::external_body]
pub(crate) fn tree_request_to_json(name_key: &str, name: &str, version_key: &str, version: i32) -> (out:
    Option<Vec<u8>>)
    ensures
        out is Some,
        out matches Some(bytes) ==> bytes@ == json_of_tree_request(
            name_key@,
            name@,
            version_key@,
            version as int,
        ),
{
    let mut object = serde_json::Map::new();
    object.insert(name_key.to_owned(), serde_json::Value::from(name));
    object.insert(version_key.to_owned(), serde_json::Value::from(version));
    serde_json::to_vec(&serde_json::Value::Object(object)).ok()
}

/// `serde_json::from_slice` for a map from names to `serde_json::Value`,
/// and `Value::as_str` on the member under `key`.
#[verifier::external_body]
pub(crate) fn text_field(bytes: &[u8], key: &str) -> (out: Option<Option<String>>)
    ensures
        match out {
            Some(Some(text)) => json_text_field(bytes@, key@) == Some(Some(text@)),
            Some(None) => json_text_field(bytes@, key@) == Some(None::<Seq<char>>),
            None => json_text_field(bytes@, key@) is None,
        },
{
    let object = serde_json::from_slice::<serde_json::Map<String, serde_json::Value>>(bytes).ok()?;
    Some(object.get(key).and_then(serde_json::Value::as_str).map(str::to_owned))
}

/// `serde_json::from_slice` for a map from names to `serde_json::Value`,
/// and `Value::as_u64` on the member under `key`.
#[verifier::external_body]
pub(crate) fn number_field(bytes: &[u8], key: &str) -> (out: Option<Option<u64>>)
    ensures
        out == json_number_field(bytes@, key@),
{
    let object = serde_json::from_slice::<serde_json::Map<String, serde_json::Value>>(bytes).ok()?;
    Some(object.get(key).and_then(serde_json::Value::as_u64))
}

/// `serde_json::to_vec` on a `BTreeMap<i32, String>`: a JSON object with
/// each index, written in decimal between quotes, as the name of its
/// entry. Such a map is always written.
#[verifier::external_body]
pub(crate) fn updates_to_json(updates: &Vec<(i32, String)>) -> (out: Option<Vec<u8>>)
    requires
        rising(updates_view(updates@)),
    ensures
        out is Some,
        out matches Some(bytes) ==> bytes@ == json_of_updates(updates_view(updates@)),
{
    let map: std::collections::BTreeMap<i32, String> = updates.iter().cloned().collect();
    serde_json::to_vec(&map).ok()
}

/// `serde_json::from_slice` for a `BTreeMap<i32, String>`, handed out in
/// the map's order, which is that of the indices.
#[verifier::external_body]
pub(crate) fn updates_from_json(bytes: &[u8]) -> (out: Option<Vec<(i32, String)>>)
    ensures
        match out {
            Some(updates) => updates_of_json(bytes@) == Some(updates_view(updates@)) && rising(
                updates_view(updates@),
            ),
            None => updates_of_json(bytes@) is None,
        },
{
    let map = serde_json::from_slice::<std::collections::BTreeMap<i32, String>>(bytes).ok()?;
    Some(map.into_iter().collect())
}

/// `serde_json::to_vec` on a `serde_json::Value` that is an object of two
/// members: the text `tag` under `tag_key`, and under `body_key` an array
/// of the bytes of `body` as numbers. Such a value is always written.
#[verifier::external_body]
pub(crate) fn request_to_json(tag_key: &str, tag: &str, body_key: &str, body: &[u8]) -> (out: Option<
    Vec<u8>,
>)
    ensures
        out is Some,
        out matches Some(bytes) ==> bytes@ == json_of_request(tag_key@, tag@, body_key@, body@),
{
    let mut object = serde_json::Map::new();
    object.insert(tag_key.to_owned(), serde_json::Value::from(tag));
    object.insert(body_key.to_owned(), serde_json::Value::from(body));
    serde_json::to_vec(&serde_json::Value::Object(object)).ok()
}

/// `serde_json::from_slice` for a map from names to `serde_json::Value`,
/// `Value::as_str` on the member under `tag_key`, and
/// `serde_json::from_value` for a `Vec<u8>` on the member under
/// `body_key`.
#[verifier::external_body]
pub(crate) fn request_from_json(bytes: &[u8], tag_key: &str, body_key: &str) -> (out: Option<
    (String, Vec<u8>),
>)
    ensures
        match out {
            Some((tag, body)) => request_of_json(bytes@, tag_key@, body_key@) == Some(
                (tag@, body@),
            ),
            None => request_of_json(bytes@, tag_key@, body_key@) is None,
        },
{
    let mut object = serde_json::from_slice::<serde_json::Map<String, serde_json::Value>>(bytes).ok()?;
    let tag = object.get(tag_key).and_then(serde_json::Value::as_str).map(str::to_owned)?;
    let body = serde_json::from_value::<Vec<u8>>(object.remove(body_key)?).ok()?;
    Some((tag, body))
}

/// `serde_json::to_vec` on a `serde_json::Value` that is an object of
/// three members: the texts `tag` under `tag_key` and `message` under
/// `message_key`, and under `body_key` an array of the bytes of `body` as
/// numbers. Such a value is always written.
#[verifier::external_body]
pub(crate) fn response_to_json(
    tag_key: &str,
    tag: &str,
    message_key: &str,
    message: &str,
    body_key: &str,
    body: &[u8],
) -> (out: Option<Vec<u8>>)
    ensures
        out is Some,
        out matches Some(bytes) ==> bytes@ == json_of_response(
            tag_key@,
            tag@,
            message_key@,
            message@,
            body_key@,
            body@,
        ),
{
    let mut object = serde_json::Map::new();
    object.insert(tag_key.to_owned(), serde_json::Value::from(tag));
    object.insert(message_key.to_owned(), serde_json::Value::from(message));
    object.insert(body_key.to_owned(), serde_json::Value::from(body));
    serde_json::to_vec(&serde_json::Value::Object(object)).ok()
}

/// `serde_json::from_slice` for a map from names to `serde_json::Value`,
/// `Value::as_str` on the members under `tag_key` and `message_key`, and
/// `serde_json::from_value` for a `Vec<u8>` on the member under
/// `body_key`.
#[verifier::external_body]
pub(crate) fn response_from_json(bytes: &[u8], tag_key: &str, message_key: &str, body_key: &str) -> (out:
    Option<(String, String, Vec<u8>)>)
    ensures
        match out {
            Some((tag, message, body)) => response_of_json(
                bytes@,
                tag_key@,
                message_key@,
                body_key@,
            ) == Some((tag@, message@, body@)),
            None => response_of_json(bytes@, tag_key@, message_key@, body_key@) is None,
        },
{
    let mut object = serde_json::from_slice::<serde_json::Map<String, serde_json::Value>>(bytes).ok()?;
    let tag = object.get(tag_key).and_then(serde_json::Value::as_str).map(str::to_owned)?;
    let message = object.get(message_key).and_then(serde_json::Value::as_str).map(str::to_owned)?;
    let body = serde_json::from_value::<Vec<u8>>(object.remove(body_key)?).ok()?;
    Some((tag, message, body))
}

} // verus!
