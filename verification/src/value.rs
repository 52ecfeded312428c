//! Configuration values: the trees that configuration files are read into.

use vstd::prelude::*;

use crate::table::{found, Table};
use crate::text::{keep, Duplicate};

verus! {

/// A configuration value. A number is held by the bits of its 64-bit form.
/// Integers and dates, apart from numbers and texts, stand in TOML documents
/// alone; a date is held as it is written.
pub enum ConfigValue {
    String(String),
    Bool(bool),
    Number(u64),
    Integer(i64),
    Date(String),
    Array(Vec<ConfigValue>),
    Table(Table<ConfigValue>),
    Null,
}

pub type ConfigTable = Table<ConfigValue>;

/// What a `ConfigValue` holds.
#[verifier::ext_equal]
pub enum Node {
    Text(Seq<char>),
    Bool(bool),
    Number(u64),
    Integer(i64),
    Date(Seq<char>),
    Array(Seq<Node>),
    Table(Seq<(Seq<char>, Node)>),
    Null,
}

pub open spec fn node(value: ConfigValue) -> Node
    decreases value,
{
    match value {
        ConfigValue::String(s) => Node::Text(s@),
        ConfigValue::Bool(b) => Node::Bool(b),
        ConfigValue::Number(n) => Node::Number(n),
        ConfigValue::Integer(n) => Node::Integer(n),
        ConfigValue::Date(s) => Node::Date(s@),
        ConfigValue::Array(items) => Node::Array(
            Seq::new(
                items@.len(),
                |i: int| if 0 <= i < items@.len() { node(items@[i]) } else { Node::Null },
            ),
        ),
        ConfigValue::Table(table) => Node::Table(
            Seq::new(
                table.rows@.len(),
                |i: int|
                    if 0 <= i < table.rows@.len() {
                        (table.rows@[i].0@, node(table.rows@[i].1))
                    } else {
                        (Seq::empty(), Node::Null)
                    },
            ),
        ),
        ConfigValue::Null => Node::Null,
    }
}

impl DeepView for ConfigValue {
    type V = Node;

    open spec fn deep_view(&self) -> Node {
        node(*self)
    }
}

/// The value of an array is the sequence of its items' values, that of a table
/// the sequence of its rows' values.
pub broadcast proof fn lemma_node(value: ConfigValue)
    ensures
        #![trigger node(value)]
        value matches ConfigValue::Array(items) ==> node(value) == Node::Array(items.deep_view()),
        value matches ConfigValue::Table(table) ==> node(value) == Node::Table(table.deep_view()),
{
    match value {
        ConfigValue::Array(items) => {
            assert(node(value)->Array_0 =~= items.deep_view());
        },
        ConfigValue::Table(table) => {
            assert(node(value)->Table_0 =~= table.deep_view());
        },
        _ => {},
    }
}

/// The text that a value holds.
pub open spec fn text_in(value: Option<Node>) -> Option<Seq<char>> {
    match value {
        Some(Node::Text(s)) => Some(s),
        _ => None,
    }
}

/// The truth value that a value holds.
pub open spec fn bool_in(value: Option<Node>) -> Option<bool> {
    match value {
        Some(Node::Bool(b)) => Some(b),
        _ => None,
    }
}

/// The items of the array that a value is.
pub open spec fn items_in(value: Option<Node>) -> Option<Seq<Node>> {
    match value {
        Some(Node::Array(items)) => Some(items),
        _ => None,
    }
}

/// The rows of the table that a value is.
pub open spec fn rows_in(value: Option<Node>) -> Option<Seq<(Seq<char>, Node)>> {
    match value {
        Some(Node::Table(rows)) => Some(rows),
        _ => None,
    }
}

/// What stands under `key` in a value that is a table.
pub open spec fn member(value: Option<Node>, key: Seq<char>) -> Option<Node> {
    match rows_in(value) {
        Some(rows) => found(rows, key),
        None => None,
    }
}

/// The texts among `items`, in their order.
pub open spec fn texts_in(items: Seq<Node>) -> Seq<Seq<char>>
    decreases items.len(),
{
    if items.len() == 0 {
        Seq::empty()
    } else {
        match items.last() {
            Node::Text(s) => texts_in(items.drop_last()).push(s),
            _ => texts_in(items.drop_last()),
        }
    }
}

impl ConfigValue {
    pub fn as_str(&self) -> (r: Option<&str>)
        ensures
            r.deep_view() == text_in(Some(self.deep_view())),
    {
        match self {
            ConfigValue::String(value) => Some(value.as_str()),
            _ => None,
        }
    }

    pub fn as_bool(&self) -> (r: Option<bool>)
        ensures
            r == bool_in(Some(self.deep_view())),
    {
        match self {
            ConfigValue::Bool(value) => Some(*value),
            _ => None,
        }
    }

    pub fn as_array(&self) -> (r: Option<&Vec<ConfigValue>>)
        ensures
            r.deep_view() == items_in(Some(self.deep_view())),
    {
        broadcast use lemma_node;

        match self {
            ConfigValue::Array(value) => Some(value),
            _ => None,
        }
    }

    pub fn as_table(&self) -> (r: Option<&ConfigTable>)
        ensures
            r.deep_view() == rows_in(Some(self.deep_view())),
    {
        broadcast use lemma_node;

        match self {
            ConfigValue::Table(value) => Some(value),
            _ => None,
        }
    }
}

/// The array of the given items.
pub fn array(items: Vec<ConfigValue>) -> (r: ConfigValue)
    ensures
        r.deep_view() == Node::Array(items.deep_view()),
{
    let r = ConfigValue::Array(items);
    proof {
        lemma_node(r);
    }
    r
}

/// The value that is the given table.
pub fn table(rows: ConfigTable) -> (r: ConfigValue)
    ensures
        r.deep_view() == Node::Table(rows.deep_view()),
{
    let r = ConfigValue::Table(rows);
    proof {
        lemma_node(r);
    }
    r
}

/// A copy of a value; `Table` and `Vec` make theirs through it.
fn copy_value(value: &ConfigValue) -> (r: ConfigValue)
    ensures
        r.deep_view() == value.deep_view(),
    decreases value,
{
    broadcast use lemma_node;

    match value {
        ConfigValue::String(s) => ConfigValue::String(s.clone()),
        ConfigValue::Bool(b) => ConfigValue::Bool(*b),
        ConfigValue::Number(n) => ConfigValue::Number(*n),
        ConfigValue::Integer(n) => ConfigValue::Integer(*n),
        ConfigValue::Date(s) => ConfigValue::Date(s.clone()),
        ConfigValue::Null => ConfigValue::Null,
        ConfigValue::Array(items) => {
            let mut out: Vec<ConfigValue> = Vec::new();
            let mut i: usize = 0;
            while i < items.len()
                invariant
                    i <= items.len(),
                    *value == ConfigValue::Array(*items),
                    out.deep_view() == items.deep_view().take(i as int),
                decreases items.len() - i,
            {
                assert(decreases_to!(value => value->Array_0@[i as int]));
                keep(&mut out, copy_value(&items[i]));
                i = i + 1;
                assert(items.deep_view().take(i as int) == items.deep_view().take(i - 1).push(items.deep_view()[i - 1]));
            }
            assert(items.deep_view().take(items.len() as int) == items.deep_view());
            array(out)
        },
        ConfigValue::Table(t) => {
            let mut out: Vec<(String, ConfigValue)> = Vec::new();
            let mut i: usize = 0;
            while i < t.rows.len()
                invariant
                    i <= t.rows.len(),
                    *value == ConfigValue::Table(*t),
                    out.deep_view() == t.deep_view().take(i as int),
                decreases t.rows.len() - i,
            {
                assert(decreases_to!(value => value->Table_0.rows@[i as int].1));
                keep(&mut out, (t.rows[i].0.clone(), copy_value(&t.rows[i].1)));
                i = i + 1;
                assert(t.deep_view().take(i as int) == t.deep_view().take(i - 1).push(t.deep_view()[i - 1]));
            }
            assert(t.deep_view().take(t.rows.len() as int) == t.deep_view());
            table(Table { rows: out })
        },
    }
}

impl Duplicate for ConfigValue {
    fn duplicate(&self) -> (r: Self) {
        copy_value(self)
    }
}

/// The text under `key`.
pub fn text_at(t: &ConfigTable, key: &str) -> (r: Option<String>)
    ensures
        r.deep_view() == text_in(found(t.deep_view(), key@)),
{
    match t.get(key) {
        Some(value) => match value.as_str() {
            Some(s) => Some(s.to_owned()),
            None => None,
        },
        None => None,
    }
}

/// The text under `key`, or `default` where there is none.
pub fn text_or(t: &ConfigTable, key: &str, default: &str) -> (r: String)
    ensures
        r@ == text_in(found(t.deep_view(), key@)).unwrap_or(default@),
{
    match text_at(t, key) {
        Some(s) => s,
        None => default.to_owned(),
    }
}

/// The truth value under `key`.
pub fn bool_at(t: &ConfigTable, key: &str) -> (r: Option<bool>)
    ensures
        r == bool_in(found(t.deep_view(), key@)),
{
    match t.get(key) {
        Some(value) => value.as_bool(),
        None => None,
    }
}

/// The array under `key`.
pub fn array_at<'a>(t: &'a ConfigTable, key: &str) -> (r: Option<&'a Vec<ConfigValue>>)
    ensures
        r.deep_view() == items_in(found(t.deep_view(), key@)),
{
    match t.get(key) {
        Some(value) => value.as_array(),
        None => None,
    }
}

/// The table under `key`.
pub fn table_at<'a>(t: &'a ConfigTable, key: &str) -> (r: Option<&'a ConfigTable>)
    ensures
        r.deep_view() == rows_in(found(t.deep_view(), key@)),
{
    match t.get(key) {
        Some(value) => value.as_table(),
        None => None,
    }
}

/// The texts among `items`.
pub fn texts(items: &Vec<ConfigValue>) -> (r: Vec<String>)
    ensures
        r.deep_view() == texts_in(items.deep_view()),
{
    let mut out: Vec<String> = Vec::new();
    let mut i: usize = 0;
    assert(out.deep_view() == Seq::<Seq<char>>::empty());
    while i < items.len()
        invariant
            i <= items.len(),
            out.deep_view() == texts_in(items.deep_view().take(i as int)),
        decreases items.len() - i,
    {
        assert(items.deep_view().take(i + 1).drop_last() == items.deep_view().take(i as int));
        if let Some(s) = items[i].as_str() {
            keep(&mut out, s.to_owned());
        }
        i = i + 1;
    }
    assert(items.deep_view().take(items.len() as int) == items.deep_view());
    out
}

/// The texts of the array under `key`; none where there is no array.
pub open spec fn texts_under(rows: Seq<(Seq<char>, Node)>, key: Seq<char>) -> Seq<Seq<char>> {
    match items_in(found(rows, key)) {
        Some(items) => texts_in(items),
        None => Seq::empty(),
    }
}

pub fn texts_at(t: &ConfigTable, key: &str) -> (r: Vec<String>)
    ensures
        r.deep_view() == texts_under(t.deep_view(), key@),
{
    match array_at(t, key) {
        Some(items) => texts(items),
        None => {
            let r: Vec<String> = Vec::new();
            assert(r.deep_view() == Seq::<Seq<char>>::empty());
            r
        },
    }
}

} // verus!
