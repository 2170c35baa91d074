//! The boundary to the TOML parser.
//!
//! The outside crate turns configuration text into a tree of tables, arrays
//! and scalars; everything after that point — schema checks, defaults, the
//! task table — is this crate's own verified logic over [`TomlValue`], a
//! plain-value image of that tree.

use vstd::prelude::*;

verus! {

/// A parsed configuration text as a plain value tree.
///
/// Floats and datetimes are collapsed into `Other`: no field of the
/// configuration schema accepts them, so the schema checks only ever need to
/// know that such a value is not a string, array or table.
#[derive(Debug)]
pub enum TomlValue {
    Text(String),
    Integer(i64),
    Boolean(bool),
    Array(Vec<TomlValue>),
    Table(Vec<(String, TomlValue)>),
    Other,
}

#[verifier::external_type_specification]
#[verifier::external_body]
pub struct ExTomlRawValue(toml::Value);

/// What the TOML parser yields on a given text: the plain tree on success,
/// the parser's diagnostic on failure. The parser is a function of the text
/// alone, and the crate's table type keeps its keys sorted, so both sides are
/// deterministic; no contract states what the tree is for a given text.
pub uninterp spec fn toml_document_of(s: Seq<char>) -> Result<TomlValue, Seq<char>>;

/// The plain-value image of a raw TOML tree, one arm per variant of the
/// outside crate's `toml::Value`; floats and datetimes become `Other`.
/// Only `parse_toml_text` uses it, to build the tree its contract names.
#[verifier::external_body]
fn toml_value_to_plain(v: &toml::Value) -> TomlValue {
    match v {
        toml::Value::String(s) => TomlValue::Text(s.clone()),
        toml::Value::Integer(i) => TomlValue::Integer(*i),
        toml::Value::Float(_) => TomlValue::Other,
        toml::Value::Boolean(b) => TomlValue::Boolean(*b),
        toml::Value::Datetime(_) => TomlValue::Other,
        toml::Value::Array(a) => TomlValue::Array(a.iter().map(toml_value_to_plain).collect()),
        toml::Value::Table(t) => TomlValue::Table(
            t.iter().map(|(k, x)| (k.clone(), toml_value_to_plain(x))).collect(),
        ),
    }
}

/// Relies on the `toml` crate's document parser (`str::parse::<toml::Table>`):
/// a well-formed text yields its top-level table, a malformed one a
/// diagnostic, and either outcome depends on the text alone.
#[verifier::external_body]
pub(crate) fn parse_toml_text(s: &str) -> (r: Result<TomlValue, String>)
    ensures
        match r {
            Ok(v) => toml_document_of(s@) == Ok::<TomlValue, Seq<char>>(v),
            Err(d) => toml_document_of(s@) == Err::<TomlValue, Seq<char>>(d@),
        },
{
    match s.parse::<toml::Table>() {
        Ok(t) => Ok(toml_value_to_plain(&toml::Value::Table(t))),
        Err(e) => Err(e.to_string()),
    }
}

} // verus!
