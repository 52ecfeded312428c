//! TOML and JSON documents, read into configuration values.

use vstd::prelude::*;

use crate::error::{error, fault, outcome, Error, ErrorKind, Fault};
use crate::table::{ascending, names, Table};
use crate::value::{ConfigTable, ConfigValue, Node};

verus! {

#[verifier::external_type_specification]
#[verifier::external_body]
pub struct ExTomlValue(toml::Value);

#[verifier::external_type_specification]
#[verifier::external_body]
pub struct ExJsonValue(serde_json::Value);

/// Whether reading a document gives `value`.
pub open spec fn holds(document: Result<Node, Seq<char>>, value: Node) -> bool {
    document is Ok && document->Ok_0 == value
}

/// Whether reading a document fails with `message`.
pub open spec fn fails(document: Result<Node, Seq<char>>, message: Seq<char>) -> bool {
    document is Err && document->Err_0 == message
}

/// What the TOML document `text` holds, or why it is none.
pub uninterp spec fn toml_document(text: Seq<char>) -> Result<Node, Seq<char>>;

/// What a TOML value holds.
pub uninterp spec fn toml_contents(value: toml::Value) -> Node;

/// `str::parse` for `toml::Table`: the table that a document is, or the
/// message of the error.
#[verifier::external_body]
pub(crate) fn parse_toml(text: &str) -> (r: Result<toml::Value, String>)
    ensures
        match r {
            Ok(value) => holds(toml_document(text@), toml_contents(value)) && toml_contents(value) is Table,
            Err(message) => fails(toml_document(text@), message@),
        },
{
    match text.parse::<toml::Table>() {
        Ok(table) => Ok(toml::Value::Table(table)),
        Err(e) => Err(e.to_string()),
    }
}

/// The contents of a `toml::Value`, variant by variant.
#[verifier::external_body]
pub(crate) fn plain_toml(value: toml::Value) -> (r: ConfigValue)
    ensures
        r.deep_view() == toml_contents(value),
{
    match value {
        toml::Value::String(s) => ConfigValue::String(s),
        toml::Value::Integer(n) => ConfigValue::Integer(n),
        toml::Value::Float(n) => ConfigValue::Number(n.to_bits()),
        toml::Value::Boolean(b) => ConfigValue::Bool(b),
        toml::Value::Datetime(d) => ConfigValue::Date(d.to_string()),
        toml::Value::Array(items) => ConfigValue::Array(items.into_iter().map(plain_toml).collect()),
        toml::Value::Table(rows) => ConfigValue::Table(
            Table { rows: rows.into_iter().map(|row| (row.0, plain_toml(row.1))).collect() },
        ),
    }
}

/// The rows that a TOML document has.
pub open spec fn toml_rows(document: Result<Node, Seq<char>>) -> Result<Seq<(Seq<char>, Node)>, Fault> {
    match document {
        Ok(Node::Table(rows)) => Ok(rows),
        Ok(_) => Ok(Seq::empty()),
        Err(message) => Err(fault(ErrorKind::InvalidData, message)),
    }
}

/// Reads a TOML document.
pub fn read_toml(text: &str) -> (r: Result<ConfigTable, Error>)
    ensures
        outcome(r) == toml_rows(toml_document(text@)),
{
    match parse_toml(text) {
        Ok(value) => {
            let plain = plain_toml(value);
            proof {
                crate::value::lemma_node(plain);
            }
            match plain {
                ConfigValue::Table(rows) => Ok(rows),
                _ => Ok(Table::new()),
            }
        },
        Err(message) => Err(error(ErrorKind::InvalidData, message)),
    }
}

/// What the JSON document in `bytes` holds, or why it is none.
pub uninterp spec fn json_document(bytes: Seq<u8>) -> Result<Node, Seq<char>>;

/// What the JSON document `text` holds, or why it is none.
pub uninterp spec fn json_text(text: Seq<char>) -> Result<Node, Seq<char>>;

/// What a JSON value holds.
pub uninterp spec fn json_contents(value: serde_json::Value) -> Node;

/// `serde_json::from_slice`: the value that a document is, or the message of
/// the error.
#[verifier::external_body]
pub(crate) fn parse_json_bytes(bytes: &Vec<u8>) -> (r: Result<serde_json::Value, String>)
    ensures
        match r {
            Ok(value) => holds(json_document(bytes@), json_contents(value)),
            Err(message) => fails(json_document(bytes@), message@),
        },
{
    serde_json::from_slice(bytes).map_err(|e: serde_json::Error| e.to_string())
}

/// `serde_json::from_str`: the value that a document is, or the message of
/// the error.
#[verifier::external_body]
pub(crate) fn parse_json_text(text: &str) -> (r: Result<serde_json::Value, String>)
    ensures
        match r {
            Ok(value) => holds(json_text(text@), json_contents(value)),
            Err(message) => fails(json_text(text@), message@),
        },
{
    serde_json::from_str(text).map_err(|e: serde_json::Error| e.to_string())
}

/// The contents of a `serde_json::Value`, variant by variant.
#[verifier::external_body]
pub(crate) fn plain_json(value: serde_json::Value) -> (r: ConfigValue)
    ensures
        r.deep_view() == json_contents(value),
{
    match value {
        serde_json::Value::String(s) => ConfigValue::String(s),
        serde_json::Value::Number(n) => ConfigValue::Number(n.as_f64().unwrap_or_default().to_bits()),
        serde_json::Value::Bool(b) => ConfigValue::Bool(b),
        serde_json::Value::Null => ConfigValue::Null,
        serde_json::Value::Array(items) => ConfigValue::Array(items.into_iter().map(plain_json).collect()),
        serde_json::Value::Object(rows) => ConfigValue::Table(
            Table { rows: rows.into_iter().map(|row| (row.0, plain_json(row.1))).collect() },
        ),
    }
}

/// The value that a JSON document is, or the error for a text that is none.
pub open spec fn json_outcome(document: Result<Node, Seq<char>>) -> Result<Node, Fault> {
    match document {
        Ok(value) => Ok(value),
        Err(message) => Err(fault(ErrorKind::InvalidData, message)),
    }
}

/// Reads a JSON document.
pub fn read_json_bytes(bytes: &Vec<u8>) -> (r: Result<ConfigValue, Error>)
    ensures
        outcome(r) == json_outcome(json_document(bytes@)),
{
    match parse_json_bytes(bytes) {
        Ok(value) => Ok(plain_json(value)),
        Err(message) => Err(error(ErrorKind::InvalidData, message)),
    }
}

/// Reads a JSON document.
pub fn read_json_text(text: &str) -> (r: Result<ConfigValue, Error>)
    ensures
        outcome(r) == json_outcome(json_text(text@)),
{
    match parse_json_text(text) {
        Ok(value) => Ok(plain_json(value)),
        Err(message) => Err(error(ErrorKind::InvalidData, message)),
    }
}

/// Whether `value` is made of texts, truth values, arrays and tables alone,
/// nested less than `depth` deep, with the rows of each table in the order of
/// their names.
pub open spec fn writable(value: Node, depth: nat) -> bool
    decreases depth,
{
    match value {
        Node::Text(_) => depth > 0,
        Node::Bool(_) => depth > 0,
        Node::Null => depth > 0,
        Node::Number(_) | Node::Integer(_) | Node::Date(_) => false,
        Node::Array(items) => depth > 0 && forall|i: int|
            0 <= i < items.len() ==> writable(#[trigger] items[i], (depth - 1) as nat),
        Node::Table(rows) => depth > 0 && ascending(names(rows)) && forall|i: int|
            0 <= i < rows.len() ==> writable((#[trigger] rows[i]).1, (depth - 1) as nat),
    }
}

/// The JSON document for `value`.
pub uninterp spec fn json_rendering(value: Node) -> Seq<char>;

/// The `serde_json::Value` for a configuration value, variant by variant.
#[verifier::external_body]
pub(crate) fn json_of(value: &ConfigValue) -> (r: serde_json::Value)
    requires
        writable(value.deep_view(), 100),
    ensures
        json_contents(r) == value.deep_view(),
{
    match value {
        ConfigValue::String(s) => serde_json::Value::String(s.clone()),
        ConfigValue::Bool(b) => serde_json::Value::Bool(*b),
        ConfigValue::Number(n) => serde_json::Value::from(*n),
        ConfigValue::Integer(n) => serde_json::Value::from(*n),
        ConfigValue::Date(s) => serde_json::Value::String(s.clone()),
        ConfigValue::Array(items) => serde_json::Value::Array(items.iter().map(json_of).collect()),
        ConfigValue::Table(t) => serde_json::Value::Object(
            t.rows.iter().map(|row| (row.0.clone(), json_of(&row.1))).collect(),
        ),
        ConfigValue::Null => serde_json::Value::Null,
    }
}

/// `serde_json::Value::to_string`: the document for a value. Reading it gives
/// the value back where it is not nested beyond what the reader takes. Of values
/// that hold numbers nothing is stated: two numbers with the same contents can be
/// written differently. Integers and dates do not come out of a JSON value.
#[verifier::external_body]
pub(crate) fn json_to_text(value: &serde_json::Value) -> (r: String)
    ensures
        writable(json_contents(*value), 100) ==> r@ == json_rendering(json_contents(*value)),
        writable(json_contents(*value), 100) ==> holds(json_text(r@), json_contents(*value)),
{
    value.to_string()
}

/// Writes a JSON document; reading it gives `value` back.
pub fn write_json(value: &ConfigValue) -> (r: String)
    requires
        writable(value.deep_view(), 100),
    ensures
        r@ == json_rendering(value.deep_view()),
        holds(json_text(r@), value.deep_view()),
{
    json_to_text(&json_of(value))
}

} // verus!
