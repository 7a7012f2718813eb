//! What a configuration file is prepared to before its fields are read: the
//! text model's part of it, with the keys that stand in for one another filled
//! in.

use crate::config::ConfigError;
use serde_json::Value;
use vstd::prelude::*;

verus! {

/// A JSON value, as `serde_json` holds it.
#[verifier::external_type_specification]
#[verifier::external_body]
pub struct ExValue(serde_json::Value);

/// Why a text is no JSON, as `serde_json` says it.
#[verifier::external_type_specification]
#[verifier::external_body]
pub struct ExJsonError(serde_json::Error);

/// The members of a JSON object by their keys; nothing where the value is no
/// object.
pub uninterp spec fn json_members(value: serde_json::Value) -> Option<
    Map<Seq<char>, serde_json::Value>,
>;

/// The value that `serde_json::from_slice` reads; nothing where the bytes are no
/// JSON text.
pub uninterp spec fn json_value(bytes: Seq<u8>) -> Option<serde_json::Value>;

/// `serde_json::from_slice` for a [`Value`]: which value the bytes stand for is
/// named, not stated.
#[verifier::external_body]
fn parse(bytes: &[u8]) -> (value: Result<Value, serde_json::Error>)
    ensures
        match value {
            Ok(value) => json_value(bytes@) == Some(value),
            Err(_) => json_value(bytes@) is None,
        },
{
    serde_json::from_slice(bytes)
}

/// `Value::is_object`: whether a value has members.
#[verifier::external_body]
fn is_object(value: &Value) -> (is: bool)
    ensures
        is == json_members(*value) is Some,
{
    value.is_object()
}

/// `Value::get` with a key, copied: the member of an object under the key.
/// Nothing where there is none, or where the value is no object.
#[verifier::external_body]
fn member(value: &Value, key: &str) -> (found: Option<Value>)
    ensures
        found == match json_members(*value) {
            Some(members) => if members.contains_key(key@) {
                Some(members[key@])
            } else {
                None
            },
            None => None,
        },
{
    value.get(key).cloned()
}

/// `value[key] = item`, the `IndexMut` of a [`Value`]: sets the member of an
/// object under the key, which need not be there yet. It panics where the value
/// can have no members.
#[verifier::external_body]
fn set_member(value: &mut Value, key: &str, item: Value)
    requires
        json_members(*old(value)) is Some,
    ensures
        json_members(*final(value)) == Some(json_members(*old(value))->Some_0.insert(key@, item)),
{
    value[key] = item;
}

/// A member of a value that may be no object.
pub open spec fn member_of(value: Value, key: Seq<char>) -> Option<Value> {
    match json_members(value) {
        Some(members) => if members.contains_key(key) {
            Some(members[key])
        } else {
            None
        },
        None => None,
    }
}

/// The text model's part of a file: what `text_config` holds, or the whole file.
pub open spec fn text_part(root: Value) -> Value {
    match member_of(root, "text_config"@) {
        Some(text) => text,
        None => root,
    }
}

/// Members with the width of the dense block filled in from that of an expert.
pub open spec fn with_width(members: Map<Seq<char>, Value>) -> Map<Seq<char>, Value> {
    if members.contains_key("intermediate_size"@) {
        members
    } else {
        members.insert("intermediate_size"@, members["moe_intermediate_size"@])
    }
}

/// The rotary base that stands among the rotary parameters.
pub open spec fn nested_theta(members: Map<Seq<char>, Value>) -> Option<Value> {
    if members.contains_key("rope_parameters"@) {
        member_of(members["rope_parameters"@], "rope_theta"@)
    } else {
        None
    }
}

/// Members with the rotary base filled in from the rotary parameters.
pub open spec fn with_theta(members: Map<Seq<char>, Value>) -> Map<Seq<char>, Value> {
    if members.contains_key("rope_theta"@) {
        members
    } else {
        match nested_theta(members) {
            Some(theta) => members.insert("rope_theta"@, theta),
            None => members,
        }
    }
}

/// The members that a configuration's fields are read from; an error where
/// there are none to read.
pub open spec fn prepared(root: Value) -> Result<Map<Seq<char>, Value>, ConfigError> {
    match json_members(text_part(root)) {
        None => Err(ConfigError::NotAnObject),
        Some(members) => if !members.contains_key("intermediate_size"@) && !members.contains_key(
            "moe_intermediate_size"@,
        ) {
            Err(ConfigError::NoIntermediateSize)
        } else {
            Ok(with_theta(with_width(members)))
        },
    }
}

/// Filling in one of the keys does not touch the other's.
proof fn lemma_keys_differ()
    ensures
        "rope_theta"@ != "intermediate_size"@,
        "rope_parameters"@ != "intermediate_size"@,
        "moe_intermediate_size"@ != "intermediate_size"@,
{
    reveal_strlit("rope_theta");
    reveal_strlit("rope_parameters");
    reveal_strlit("intermediate_size");
    reveal_strlit("moe_intermediate_size");
    assert("rope_theta"@.len() == 10);
    assert("rope_parameters"@.len() == 15);
    assert("intermediate_size"@.len() == 17);
    assert("moe_intermediate_size"@.len() == 21);
}

/// Prepares a parsed file.
pub fn prepare(root: Value) -> (object: Result<Value, ConfigError>)
    ensures
        match object {
            Ok(object) => prepared(root) is Ok && json_members(object) == Some(
                prepared(root)->Ok_0,
            ),
            Err(error) => prepared(root) == Err::<Map<Seq<char>, Value>, ConfigError>(error),
        },
{
    let mut text: Value = match member(&root, "text_config") {
        Some(text) => text,
        None => root,
    };
    if !is_object(&text) {
        return Err(ConfigError::NotAnObject);
    }
    if member(&text, "intermediate_size").is_none() {
        match member(&text, "moe_intermediate_size") {
            Some(width) => {
                set_member(&mut text, "intermediate_size", width);
            },
            None => {
                return Err(ConfigError::NoIntermediateSize);
            },
        }
    }
    if member(&text, "rope_theta").is_none() {
        if let Some(parameters) = member(&text, "rope_parameters") {
            if let Some(theta) = member(&parameters, "rope_theta") {
                set_member(&mut text, "rope_theta", theta);
            }
        }
    }
    Ok(text)
}

/// Reads a configuration file as far as its fields: the object that they are
/// read from.
pub fn from_json(bytes: &[u8]) -> (object: Result<Value, ConfigError>)
    ensures
        match json_value(bytes@) {
            None => object == Err::<Value, ConfigError>(ConfigError::NotJson),
            Some(root) => match object {
                Ok(object) => prepared(root) is Ok && json_members(object) == Some(
                    prepared(root)->Ok_0,
                ),
                Err(error) => prepared(root) == Err::<Map<Seq<char>, Value>, ConfigError>(error),
            },
        },
{
    match parse(bytes) {
        Ok(root) => prepare(root),
        Err(_) => Err(ConfigError::NotJson),
    }
}

/// Filling in leaves what a file says itself: every member that was there is
/// there with its value, and both widths and bases that can be found are.
pub proof fn filling_in_keeps_every_member(root: Value)
    requires
        prepared(root) is Ok,
    ensures
        ({
            let before = json_members(text_part(root))->Some_0;
            let after = prepared(root)->Ok_0;
            &&& forall|key: Seq<char>| #[trigger]
                before.contains_key(key) ==> after.contains_key(key) && after[key] == before[key]
            &&& after.contains_key("intermediate_size"@)
            &&& nested_theta(before) is Some ==> after.contains_key("rope_theta"@)
        }),
{
    lemma_keys_differ();
}

} // verus!
