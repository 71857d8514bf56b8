//! Reading and writing YAML text, done by the `serde_yaml` crate.
//!
//! What the crate reads from a text and what it writes for a tree are not
//! worked out here. Both results are given names, and the functions below
//! state that they return what those names stand for.

use vstd::prelude::*;
use serde_yaml::value::TaggedValue;
use serde_yaml::Value;
use crate::value::{Tree, YamlValue};

verus! {

/// `serde_yaml::Value`: what the crate reads and writes, handed to and from
/// the conversions below.
#[verifier::external_type_specification]
#[verifier::external_body]
pub struct ExYamlValue(serde_yaml::Value);

/// `serde_yaml::Error`: the crate's error, carried through unread.
#[verifier::external_type_specification]
#[verifier::external_body]
pub struct ExYamlError(serde_yaml::Error);

/// What `serde_yaml::from_str` makes of `text`: the tree that it reads, or
/// the error that it reports.
pub uninterp spec fn yaml_parse(text: Seq<char>) -> Result<Tree, serde_yaml::Error>;

/// What `serde_yaml::to_string` makes of `tree`: the text that it writes,
/// or the error that it reports.
pub uninterp spec fn yaml_text(tree: Tree) -> Result<Seq<char>, serde_yaml::Error>;

/// Turns a `serde_yaml::Value` into the same value of this library, variant
/// by variant. The entries of a `serde_yaml::Mapping` are taken in the
/// mapping's own order, as its `into_iter` hands them out. Nothing is stated
/// of the result here: `parse` states what it returns.
#[verifier::external_body]
fn from_yaml(value: Value) -> YamlValue {
    match value {
        Value::Null => YamlValue::Null,
        Value::Bool(b) => YamlValue::Bool(b),
        Value::Number(n) => YamlValue::Number(n),
        Value::String(s) => YamlValue::String(s),
        Value::Sequence(items) => YamlValue::Sequence(items.into_iter().map(from_yaml).collect()),
        Value::Mapping(entries) => YamlValue::Mapping(
            entries.into_iter().map(|(k, v)| (from_yaml(k), from_yaml(v))).collect(),
        ),
        Value::Tagged(t) => YamlValue::Tagged(t.tag, Box::new(from_yaml(t.value))),
    }
}

/// Turns a value of this library into the same `serde_yaml::Value`, variant
/// by variant. The entries of a mapping are collected into a
/// `serde_yaml::Mapping` by its `from_iter`, which keeps their order and, of
/// entries with equal keys, one only. Nothing is stated of the result here:
/// `serialize` states what it returns.
#[verifier::external_body]
fn to_yaml(value: &YamlValue) -> Value {
    match value {
        YamlValue::Null => Value::Null,
        YamlValue::Bool(b) => Value::Bool(*b),
        YamlValue::Number(n) => Value::Number(n.clone()),
        YamlValue::String(s) => Value::String(s.clone()),
        YamlValue::Sequence(items) => Value::Sequence(items.iter().map(to_yaml).collect()),
        YamlValue::Mapping(entries) => Value::Mapping(
            entries.iter().map(|(k, v)| (to_yaml(k), to_yaml(v))).collect(),
        ),
        YamlValue::Tagged(tag, inner) => Value::Tagged(
            Box::new(TaggedValue { tag: tag.clone(), value: to_yaml(inner) }),
        ),
    }
}

/// Calls `serde_yaml::from_str` for a `serde_yaml::Value` and hands the
/// value on as one of this library. The result is a function of the text:
/// the tree read, or the error that the crate reports, handed on as it
/// came. No mapping that was read has a key twice: the crate reports a
/// repeated key as an error.
#[verifier::external_body]
pub(crate) fn parse(text: &str) -> (r: Result<YamlValue, serde_yaml::Error>)
    ensures
        match r {
            Ok(value) => yaml_parse(text@) == Ok::<Tree, serde_yaml::Error>(value@)
                && value@.has_distinct_keys(),
            Err(error) => yaml_parse(text@) == Err::<Tree, serde_yaml::Error>(error),
        },
{
    match serde_yaml::from_str::<Value>(text) {
        Ok(value) => Ok(from_yaml(value)),
        Err(error) => Err(error),
    }
}

/// Calls `serde_yaml::to_string` on `value`, handed over as a
/// `serde_yaml::Value`. The result is a function of the tree: the text
/// written, or the error that the crate reports, handed on as it came.
#[verifier::external_body]
pub(crate) fn serialize(value: &YamlValue) -> (r: Result<String, serde_yaml::Error>)
    ensures
        match r {
            Ok(text) => yaml_text(value@) == Ok::<Seq<char>, serde_yaml::Error>(text@),
            Err(error) => yaml_text(value@) == Err::<Seq<char>, serde_yaml::Error>(error),
        },
{
    serde_yaml::to_string(&to_yaml(value))
}

} // verus!
