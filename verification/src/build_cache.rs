//! Build outputs kept as JSON documents.

use vstd::prelude::*;

use crate::context::{work_dir, Context, ContextModel};
use crate::digest::{
    decimal, decimal_of, describe_number_fault, law_decimal_round_trip, number_in, number_message, parse_number,
};
use crate::documents::{json_outcome, json_rendering, json_text, read_json_text, writable, write_json};
use crate::error::{error, fault, invalid_data, outcome, Error, ErrorKind, Fault};
use crate::host::{told, Halt, Known, Stop, World};
use crate::model::{BuildOutput, BuildResult, Outcome, Output};
use crate::path::{join_path, joined_path};
use crate::table::{
    ascending, found, found_number, law_with_number, law_with_row, law_with_row_names, lemma_found_name,
    lemma_placed, lemma_with_number_ascends, names, numbers_ascend, with_number, with_row, Numbered, Table,
};
use crate::text::{before, cat2, cut, keep, split_once, Duplicate};
use crate::value::{array, items_in, member, rows_in, table, ConfigTable, ConfigValue, Node};

verus! {

pub type Extras = Seq<(u32, Seq<Seq<char>>)>;

/// `texts` and the values `items[i..]`, all of which must be texts; `message`
/// says so of one that is not.
pub open spec fn all_texts(items: Seq<Node>, i: int, texts: Seq<Seq<char>>, message: Seq<char>) -> Result<
    Seq<Seq<char>>,
    Fault,
>
    decreases items.len() - i,
{
    if i >= items.len() {
        Ok(texts)
    } else {
        match items[i] {
            Node::Text(s) => all_texts(items, i + 1, texts.push(s), message),
            _ => Err(fault(ErrorKind::InvalidData, message)),
        }
    }
}

fn read_texts(items: &Vec<ConfigValue>, message: &str) -> (r: Result<Vec<String>, Error>)
    ensures
        outcome(r) == all_texts(items.deep_view(), 0, Seq::empty(), message@),
{
    let ghost list = items.deep_view();
    let mut out: Vec<String> = Vec::new();
    let mut i: usize = 0;
    assert(out.deep_view() =~= Seq::<Seq<char>>::empty());
    while i < items.len()
        invariant
            i <= items.len(),
            list == items.deep_view(),
            all_texts(list, 0, Seq::empty(), message@) == all_texts(list, i as int, out.deep_view(), message@),
        decreases items.len() - i,
    {
        assert(list[i as int] == items@[i as int].deep_view());
        match items[i].as_str() {
            Some(s) => keep(&mut out, s.to_owned()),
            None => return Err(invalid_data(message)),
        }
        i = i + 1;
    }
    Ok(out)
}

/// The number and the texts of one row of cached extras.
pub open spec fn cached_extra(key: Seq<char>, value: Node) -> Result<(u32, Seq<Seq<char>>), Fault> {
    match number_in(key, u32::MAX as int) {
        Err(e) => Err(fault(ErrorKind::InvalidData, "cached extra key must be a u32: "@ + number_message(e))),
        Ok(number) => match value {
            Node::Array(items) => match all_texts(items, 0, Seq::empty(), "cached extra value must be a string"@) {
                Err(e) => Err(e),
                Ok(texts) => Ok((number as u32, texts)),
            },
            _ => Err(fault(ErrorKind::InvalidData, "cached extra values must be an array"@)),
        },
    }
}

fn read_extra(key: &str, value: &ConfigValue) -> (r: Result<(u32, Vec<String>), Error>)
    ensures
        outcome(r) == cached_extra(key@, value.deep_view()),
{
    let number: u64 = match parse_number(key, u32::MAX as u64) {
        Ok(number) => number,
        Err(e) => return Err(
            error(
                ErrorKind::InvalidData,
                cat2("cached extra key must be a u32: ", describe_number_fault(e)),
            ),
        ),
    };
    match value.as_array() {
        Some(items) => {
            let texts = read_texts(items, "cached extra value must be a string")?;
            Ok((number as u32, texts))
        },
        None => Err(invalid_data("cached extra values must be an array")),
    }
}

/// `extras` with the rows `rows[i..]`.
pub open spec fn with_cached_extras(rows: Seq<(Seq<char>, Node)>, i: int, extras: Extras) -> Result<Extras, Fault>
    decreases rows.len() - i,
{
    if i >= rows.len() {
        Ok(extras)
    } else {
        match cached_extra(rows[i].0, rows[i].1) {
            Err(e) => Err(e),
            Ok((number, texts)) => with_cached_extras(rows, i + 1, with_number(extras, number, texts)),
        }
    }
}

/// The build output that a cached value is.
pub open spec fn cached_output(value: Node) -> Result<Output, Fault> {
    match items_in(member(Some(value), "outputs"@)) {
        None => Err(fault(ErrorKind::InvalidData, "cache missing outputs"@)),
        Some(items) => match all_texts(items, 0, Seq::empty(), "cached output path must be a string"@) {
            Err(e) => Err(e),
            Ok(outputs) => match rows_in(member(Some(value), "extras"@)) {
                None => Ok(Output { outputs, extras: Seq::empty() }),
                Some(rows) => match with_cached_extras(rows, 0, Seq::empty()) {
                    Err(e) => Err(e),
                    Ok(extras) => Ok(Output { outputs, extras }),
                },
            },
        },
    }
}

/// Reads a cached build output that was parsed already.
pub fn parse_cached_build_output(value: &ConfigValue) -> (r: Result<BuildOutput, Error>)
    ensures
        outcome(r) == cached_output(value.deep_view()),
{
    let empty: ConfigTable = Table::new();
    let fields = match value.as_table() {
        Some(fields) => fields,
        None => &empty,
    };
    let items = match crate::value::array_at(fields, "outputs") {
        Some(items) => items,
        None => return Err(invalid_data("cache missing outputs")),
    };
    let outputs = read_texts(items, "cached output path must be a string")?;
    let mut extras: Numbered<Vec<String>> = Numbered::new();
    if let Some(object) = crate::value::table_at(fields, "extras") {
        let ghost rows = object.deep_view();
        let mut i: usize = 0;
        while i < object.rows.len()
            invariant
                i <= object.rows.len(),
                rows == object.deep_view(),
                cached_output(value.deep_view()) == (match with_cached_extras(rows, i as int, extras.deep_view()) {
                    Err(e) => Err(e),
                    Ok(extras) => Ok(Output { outputs: outputs.deep_view(), extras }),
                }),
            decreases object.rows.len() - i,
        {
            assert(rows[i as int] == (object.rows@[i as int].0@, object.rows@[i as int].1.deep_view()));
            let (number, texts) = read_extra(object.rows[i].0.as_str(), &object.rows[i].1)?;
            extras.insert(number, texts);
            i = i + 1;
        }
    }
    Ok(BuildOutput { outputs, extras })
}

/// The build output that a cached document is.
pub open spec fn output_of_document(document: Result<Node, Seq<char>>) -> Option<Output> {
    match json_outcome(document) {
        Err(_) => None,
        Ok(value) => match cached_output(value) {
            Err(_) => None,
            Ok(output) => Some(output),
        },
    }
}

/// Reads the text of a cached build output; a text that is none is no error.
pub fn read_cached_build_output(content: &str) -> (r: Option<BuildOutput>)
    ensures
        r.deep_view() == output_of_document(json_text(content@)),
{
    match read_json_text(content) {
        Err(_) => None,
        Ok(value) => match parse_cached_build_output(&value) {
            Err(_) => None,
            Ok(output) => Some(output),
        },
    }
}

/// The paths behind the first `:` of those of the first `n` texts that have one.
pub open spec fn tagged_paths(values: Seq<Seq<char>>, n: int) -> Seq<Seq<char>>
    decreases n,
{
    if n <= 0 {
        Seq::empty()
    } else {
        match cut(values[n - 1], ':') {
            Some((_, path)) => tagged_paths(values, n - 1).push(path),
            None => tagged_paths(values, n - 1),
        }
    }
}

/// The paths in the first `n` rows of the extras of an output.
pub open spec fn extra_paths(extras: Extras, n: int) -> Seq<Seq<char>>
    decreases n,
{
    if n <= 0 {
        Seq::empty()
    } else {
        extra_paths(extras, n - 1) + tagged_paths(extras[n - 1].1, extras[n - 1].1.len() as int)
    }
}

/// The paths that have to exist for a cached output to be used.
pub open spec fn output_paths(output: Output) -> Seq<Seq<char>> {
    output.outputs + extra_paths(output.extras, output.extras.len() as int)
}

/// The paths that have to exist for a cached output to be used.
pub fn build_output_paths(output: &BuildOutput) -> (r: Vec<String>)
    ensures
        r.deep_view() == output_paths(output.deep_view()),
{
    let ghost extras = output.extras.deep_view();
    let mut out = output.outputs.duplicate();
    let ghost start = out.deep_view();
    let mut i: usize = 0;
    assert(out.deep_view() =~= start + extra_paths(extras, 0));
    while i < output.extras.rows.len()
        invariant
            i <= output.extras.rows.len(),
            extras == output.extras.deep_view(),
            out.deep_view() == start + extra_paths(extras, i as int),
        decreases output.extras.rows.len() - i,
    {
        let values = &output.extras.rows[i].1;
        let ghost list = values.deep_view();
        assert(extras[i as int] == (output.extras.rows@[i as int].0, list));
        let ghost before_row = out.deep_view();
        let mut j: usize = 0;
        assert(out.deep_view() =~= before_row + tagged_paths(list, 0));
        while j < values.len()
            invariant
                j <= values.len(),
                list == values.deep_view(),
                out.deep_view() == before_row + tagged_paths(list, j as int),
            decreases values.len() - j,
        {
            assert(list[j as int] == values@[j as int]@);
            if let Some((_, path)) = split_once(values[j].as_str(), ':') {
                keep(&mut out, path);
            }
            j = j + 1;
            assert(out.deep_view() =~= before_row + tagged_paths(list, j as int));
        }
        i = i + 1;
        assert(out.deep_view() =~= start + extra_paths(extras, i as int));
    }
    out
}

/// The value for a list of texts.
pub open spec fn texts_value(texts: Seq<Seq<char>>) -> Node {
    Node::Array(texts.map_values(|s: Seq<char>| Node::Text(s)))
}

/// The rows for the first `n` of `extras`, each under its number in decimal.
pub open spec fn extras_rows(extras: Extras, n: int) -> Seq<(Seq<char>, Node)>
    decreases n,
{
    if n <= 0 {
        Seq::empty()
    } else {
        with_row(extras_rows(extras, n - 1), decimal(extras[n - 1].0 as int), texts_value(extras[n - 1].1))
    }
}

/// The value that a build output is kept as.
pub open spec fn output_value(output: Output) -> Node {
    Node::Table(
        seq![
            ("extras"@, Node::Table(extras_rows(output.extras, output.extras.len() as int))),
            ("outputs"@, texts_value(output.outputs)),
        ],
    )
}

fn value_of_texts(texts: &Vec<String>) -> (r: ConfigValue)
    ensures
        r.deep_view() == texts_value(texts.deep_view()),
{
    let ghost all = texts_value(texts.deep_view())->Array_0;
    let mut out: Vec<ConfigValue> = Vec::new();
    let mut i: usize = 0;
    while i < texts.len()
        invariant
            i <= texts.len(),
            all == texts_value(texts.deep_view())->Array_0,
            out.deep_view() == all.take(i as int),
        decreases texts.len() - i,
    {
        keep(&mut out, ConfigValue::String(texts[i].clone()));
        i = i + 1;
        assert(all.take(i as int) == all.take(i - 1).push(all[i - 1]));
    }
    assert(all.take(i as int) == all);
    array(out)
}

/// Writes the text that a build output is kept as; reading it gives the output
/// back.
pub fn write_cached_build_output(output: &BuildOutput) -> (r: String)
    ensures
        r@ == json_rendering(output_value(output.deep_view())),
        numbers_ascend(output.deep_view().extras) ==> output_of_document(json_text(r@)) == Some(output.deep_view()),
{
    let ghost extras = output.extras.deep_view();
    let mut rows: ConfigTable = Table::new();
    let mut i: usize = 0;
    while i < output.extras.rows.len()
        invariant
            i <= output.extras.rows.len(),
            extras == output.extras.deep_view(),
            rows.deep_view() == extras_rows(extras, i as int),
        decreases output.extras.rows.len() - i,
    {
        assert(extras[i as int] == (output.extras.rows@[i as int].0, output.extras.rows@[i as int].1.deep_view()));
        rows.insert(decimal_of(output.extras.rows[i].0 as u64), value_of_texts(&output.extras.rows[i].1));
        i = i + 1;
    }
    let mut fields: Vec<(String, ConfigValue)> = Vec::new();
    keep(&mut fields, ("extras".to_owned(), table(rows)));
    keep(&mut fields, ("outputs".to_owned(), value_of_texts(&output.outputs)));
    let value = table(Table { rows: fields });
    proof {
        assert(value.deep_view()->Table_0 =~= output_value(output.deep_view())->Table_0);
        lemma_output_writable(output.deep_view());
        if numbers_ascend(output.deep_view().extras) {
            law_output_read_back(output.deep_view());
        }
    }
    write_json(&value)
}

proof fn lemma_texts_writable(texts: Seq<Seq<char>>, depth: nat)
    requires
        depth >= 2,
    ensures
        writable(texts_value(texts), depth),
{
    let items = texts_value(texts)->Array_0;
    assert forall|i: int| 0 <= i < items.len() implies writable(#[trigger] items[i], (depth - 1) as nat) by {
        assert(items[i] == Node::Text(texts[i]));
    }
}

proof fn lemma_row_values<V>(rows: Seq<(Seq<char>, V)>, key: Seq<char>, value: V, i: int)
    requires
        0 <= i < with_row(rows, key, value).len(),
    ensures
        with_row(rows, key, value)[i].1 == value || exists|j: int|
            0 <= j < rows.len() && with_row(rows, key, value)[i] == #[trigger] rows[j],
    decreases rows.len(),
{
    let out = with_row(rows, key, value);
    if rows.len() == 0 {
    } else if rows[0].0 == key {
        if i > 0 {
            assert(out[i] == rows[i]);
        }
    } else if before(key, rows[0].0) {
        if i > 0 {
            assert(out[i] == rows[i - 1]);
        }
    } else if i == 0 {
        assert(out[i] == rows[0]);
    } else {
        let rest = with_row(rows.skip(1), key, value);
        assert(out[i] == rest[i - 1]);
        lemma_row_values(rows.skip(1), key, value, i - 1);
        if rest[i - 1].1 != value {
            let j = choose|j: int| 0 <= j < rows.skip(1).len() && rest[i - 1] == #[trigger] rows.skip(1)[j];
            assert(rows[j + 1] == out[i]);
        }
    }
}

proof fn lemma_extras_writable(extras: Extras, n: int)
    requires
        0 <= n <= extras.len(),
    ensures
        ascending(names(extras_rows(extras, n))),
        forall|i: int|
            0 <= i < extras_rows(extras, n).len() ==> writable((#[trigger] extras_rows(extras, n)[i]).1, 98),
    decreases n,
{
    if n > 0 {
        lemma_extras_writable(extras, n - 1);
        let rows = extras_rows(extras, n - 1);
        let key = decimal(extras[n - 1].0 as int);
        let value = texts_value(extras[n - 1].1);
        law_with_row_names(rows, key, value);
        lemma_placed(names(rows), key);
        lemma_texts_writable(extras[n - 1].1, 98);
        let out = extras_rows(extras, n);
        assert forall|i: int| 0 <= i < out.len() implies writable((#[trigger] out[i]).1, 98) by {
            lemma_row_values(rows, key, value, i);
            if out[i].1 != value {
                let j = choose|j: int| 0 <= j < rows.len() && out[i] == #[trigger] rows[j];
                assert(writable(rows[j].1, 98));
            }
        }
    } else {
        assert(names(extras_rows(extras, n)) =~= Seq::empty());
    }
}

proof fn lemma_output_writable(output: Output)
    ensures
        writable(output_value(output), 100),
{
    let fields = output_value(output)->Table_0;
    lemma_extras_writable(output.extras, output.extras.len() as int);
    assert(writable(fields[0].1, 99));
    lemma_texts_writable(output.outputs, 99);
    reveal_strlit("extras");
    reveal_strlit("outputs");
    let keys = names(fields);
    assert(keys =~= seq!["extras"@, "outputs"@]);
    assert(before("extras"@, "outputs"@));
    assert(ascending(keys));
}

proof fn lemma_texts_read(texts: Seq<Seq<char>>, i: int, done: Seq<Seq<char>>, message: Seq<char>)
    requires
        0 <= i <= texts.len(),
        done == texts.take(i),
    ensures
        all_texts(texts_value(texts)->Array_0, i, done, message) == Ok::<Seq<Seq<char>>, Fault>(texts),
    decreases texts.len() - i,
{
    if i < texts.len() {
        assert(done.push(texts[i]) =~= texts.take(i + 1));
        lemma_texts_read(texts, i + 1, texts.take(i + 1), message);
    } else {
        assert(done =~= texts);
    }
}

/// A row found among `rows` with one more row at the end.
proof fn lemma_found_push<V>(rows: Seq<(Seq<char>, V)>, row: (Seq<char>, V), key: Seq<char>)
    ensures
        found(rows.push(row), key) == (match found(rows, key) {
            Some(v) => Some(v),
            None => if row.0 == key {
                Some(row.1)
            } else {
                None
            },
        }),
    decreases rows.len(),
{
    if rows.len() == 0 {
        assert(rows.push(row).skip(1) =~= rows);
        assert(found(rows.push(row).skip(1), key) is None);
    } else {
        assert(rows.push(row).skip(1) =~= rows.skip(1).push(row));
        lemma_found_push(rows.skip(1), row, key);
    }
}

proof fn lemma_number_names(a: u32, b: u32)
    ensures
        decimal(a as int) == decimal(b as int) ==> a == b,
{
    law_decimal_round_trip(a);
    law_decimal_round_trip(b);
}

/// What stands under a number's name in the rows of the extras is what stands
/// under the number, and only numbers' names stand there.
proof fn lemma_extras_found(extras: Extras, n: int, k: u32)
    requires
        0 <= n <= extras.len(),
        numbers_ascend(extras),
    ensures
        found(extras_rows(extras, n), decimal(k as int)) == (match found_number(extras.take(n), k) {
            Some(texts) => Some(texts_value(texts)),
            None => None,
        }),
    decreases n,
{
    if n > 0 {
        lemma_extras_found(extras, n - 1, k);
        let row = extras[n - 1];
        law_with_row(extras_rows(extras, n - 1), decimal(row.0 as int), texts_value(row.1), decimal(k as int));
        lemma_number_names(row.0, k);
        assert(extras.take(n) =~= extras.take(n - 1).push(row));
        lemma_found_number_push(extras.take(n - 1), row, k);
        if row.0 == k {
            lemma_number_absent(extras.take(n - 1), k);
        }
    } else {
        assert(extras.take(0) =~= Seq::empty());
    }
}

proof fn lemma_found_number_push<V>(rows: Seq<(u32, V)>, row: (u32, V), key: u32)
    ensures
        found_number(rows.push(row), key) == (match found_number(rows, key) {
            Some(v) => Some(v),
            None => if row.0 == key {
                Some(row.1)
            } else {
                None
            },
        }),
    decreases rows.len(),
{
    if rows.len() == 0 {
        assert(rows.push(row).skip(1) =~= rows);
        assert(found_number(rows.push(row).skip(1), key) is None);
    } else {
        assert(rows.push(row).skip(1) =~= rows.skip(1).push(row));
        lemma_found_number_push(rows.skip(1), row, key);
    }
}

proof fn lemma_number_absent<V>(rows: Seq<(u32, V)>, key: u32)
    requires
        forall|i: int| 0 <= i < rows.len() ==> (#[trigger] rows[i]).0 != key,
    ensures
        found_number(rows, key) is None,
    decreases rows.len(),
{
    if rows.len() > 0 {
        assert(rows[0].0 != key);
        assert forall|i: int| 0 <= i < rows.skip(1).len() implies (#[trigger] rows.skip(1)[i]).0 != key by {
            assert(rows.skip(1)[i] == rows[i + 1]);
        }
        lemma_number_absent(rows.skip(1), key);
    }
}

/// Whether a row is the row of a number's texts.
spec fn number_row(row: (Seq<char>, Node)) -> bool {
    exists|k: u32, texts: Seq<Seq<char>>| #[trigger] is_row(row, k, texts)
}

spec fn is_row(row: (Seq<char>, Node), k: u32, texts: Seq<Seq<char>>) -> bool {
    row.0 == decimal(k as int) && row.1 == texts_value(texts)
}

proof fn lemma_rows_numbered(extras: Extras, n: int)
    requires
        0 <= n <= extras.len(),
    ensures
        forall|i: int| 0 <= i < extras_rows(extras, n).len() ==> number_row(#[trigger] extras_rows(extras, n)[i]),
    decreases n,
{
    if n > 0 {
        lemma_rows_numbered(extras, n - 1);
        lemma_with_number_row(extras_rows(extras, n - 1), extras[n - 1].0, extras[n - 1].1);
    }
}

proof fn lemma_with_number_row(rows: Seq<(Seq<char>, Node)>, k: u32, texts: Seq<Seq<char>>)
    requires
        forall|i: int| 0 <= i < rows.len() ==> number_row(#[trigger] rows[i]),
    ensures
        forall|i: int|
            0 <= i < with_row(rows, decimal(k as int), texts_value(texts)).len() ==> number_row(
                #[trigger] with_row(rows, decimal(k as int), texts_value(texts))[i],
            ),
    decreases rows.len(),
{
    let key = decimal(k as int);
    let value = texts_value(texts);
    let out = with_row(rows, key, value);
    assert(is_row((key, value), k, texts));
    if rows.len() > 0 {
        let tail = rows.skip(1);
        assert forall|i: int| 0 <= i < tail.len() implies number_row(#[trigger] tail[i]) by {
            assert(tail[i] == rows[i + 1]);
        }
        lemma_with_number_row(tail, k, texts);
        assert forall|i: int| 0 <= i < out.len() implies number_row(#[trigger] out[i]) by {
            if rows[0].0 == key {
                if i > 0 {
                    assert(out[i] == tail[i - 1]);
                }
            } else if before(key, rows[0].0) {
                if i > 0 {
                    assert(out[i] == rows[i - 1]);
                }
            } else if i > 0 {
                assert(out[i] == with_row(tail, key, value)[i - 1]);
            } else {
                assert(out[i] == rows[0]);
            }
        }
    }
}

/// Two lists of rows in the order of their numbers with the same values under
/// every number are the same.
proof fn lemma_numbers_unique<V>(a: Seq<(u32, V)>, b: Seq<(u32, V)>)
    requires
        numbers_ascend(a),
        numbers_ascend(b),
        forall|k: u32| #[trigger] found_number(a, k) == found_number(b, k),
    ensures
        a == b,
    decreases a.len(),
{
    if a.len() == 0 {
        if b.len() > 0 {
            assert(found_number(b, b[0].0) == found_number(a, b[0].0));
        }
        assert(a =~= b);
    } else {
        assert(found_number(a, a[0].0) == Some(a[0].1));
        assert(found_number(b, a[0].0) == found_number(a, a[0].0));
        if b.len() == 0 {
            assert(false);
        }
        assert(found_number(b, b[0].0) == Some(b[0].1));
        assert(found_number(a, b[0].0) == found_number(b, b[0].0));
        if a[0].0 != b[0].0 {
            if a[0].0 < b[0].0 {
                lemma_number_absent(b, a[0].0);
            } else {
                lemma_number_absent(a, b[0].0);
            }
            assert(false);
        }
        let x = a.skip(1);
        let y = b.skip(1);
        assert forall|i: int, j: int| 0 <= i < j < x.len() implies (#[trigger] x[i]).0 < (#[trigger] x[j]).0 by {
            assert(x[i] == a[i + 1] && x[j] == a[j + 1]);
        }
        assert forall|i: int, j: int| 0 <= i < j < y.len() implies (#[trigger] y[i]).0 < (#[trigger] y[j]).0 by {
            assert(y[i] == b[i + 1] && y[j] == b[j + 1]);
        }
        assert forall|k: u32| #[trigger] found_number(x, k) == found_number(y, k) by {
            if k == a[0].0 {
                assert forall|i: int| 0 <= i < x.len() implies (#[trigger] x[i]).0 != k by {
                    assert(x[i] == a[i + 1]);
                }
                assert forall|i: int| 0 <= i < y.len() implies (#[trigger] y[i]).0 != k by {
                    assert(y[i] == b[i + 1]);
                }
                lemma_number_absent(x, k);
                lemma_number_absent(y, k);
            } else {
                assert(found_number(a, k) == found_number(b, k));
            }
        }
        lemma_numbers_unique(x, y);
        assert(a =~= seq![a[0]] + x);
        assert(b =~= seq![b[0]] + y);
    }
}

/// Reading rows of numbers' texts gives rows in the order of their numbers, with
/// what the rows have under each number's name.
proof fn lemma_rows_read(rows: Seq<(Seq<char>, Node)>, i: int, extras: Extras)
    requires
        0 <= i <= rows.len(),
        ascending(names(rows)),
        forall|j: int| 0 <= j < rows.len() ==> number_row(#[trigger] rows[j]),
        numbers_ascend(extras),
        forall|k: u32|
            found(rows.take(i), #[trigger] decimal(k as int)) == (match found_number(extras, k) {
                Some(texts) => Some(texts_value(texts)),
                None => None,
            }),
    ensures
        with_cached_extras(rows, i, extras) is Ok,
        numbers_ascend(with_cached_extras(rows, i, extras)->Ok_0),
        forall|k: u32|
            found(rows, #[trigger] decimal(k as int)) == (match found_number(
                with_cached_extras(rows, i, extras)->Ok_0,
                k,
            ) {
                Some(texts) => Some(texts_value(texts)),
                None => None,
            }),
    decreases rows.len() - i,
{
    if i < rows.len() {
        let row = rows[i];
        assert(number_row(row));
        let (k0, texts0) = choose|k: u32, texts: Seq<Seq<char>>| #[trigger] is_row(row, k, texts);
        law_decimal_round_trip(k0);
        assert(texts0.take(0) =~= Seq::empty());
        lemma_texts_read(texts0, 0, Seq::empty(), "cached extra value must be a string"@);
        assert(cached_extra(row.0, row.1) == Ok::<(u32, Seq<Seq<char>>), Fault>((k0, texts0)));
        let next = with_number(extras, k0, texts0);
        lemma_with_number_ascends(extras, k0, texts0);
        assert(rows.take(i + 1) =~= rows.take(i).push(row));
        assert forall|k: u32|
            found(rows.take(i + 1), #[trigger] decimal(k as int)) == (match found_number(next, k) {
                Some(texts) => Some(texts_value(texts)),
                None => None,
            }) by {
            lemma_found_push(rows.take(i), row, decimal(k as int));
            law_with_number(extras, k0, texts0, k);
            lemma_number_names(k0, k);
            if k == k0 {
                lemma_found_name(rows.take(i), row.0);
                if names(rows.take(i)).contains(row.0) {
                    let m = choose|m: int| 0 <= m < names(rows.take(i)).len() && names(rows.take(i))[m] == row.0;
                    assert(names(rows)[m] == row.0 && names(rows)[i] == row.0);
                    crate::text::lemma_before_irreflexive(row.0, 0);
                    assert(false);
                }
            }
        }
        lemma_rows_read(rows, i + 1, next);
    } else {
        assert(rows.take(i) =~= rows);
    }
}

/// What is read of the value that a build output is kept as is the output.
pub proof fn law_output_read_back(output: Output)
    requires
        numbers_ascend(output.extras),
    ensures
        cached_output(output_value(output)) == Ok::<Output, Fault>(output),
{
    reveal_strlit("extras");
    reveal_strlit("outputs");
    let fields = output_value(output)->Table_0;
    let n = output.extras.len() as int;
    let rows = extras_rows(output.extras, n);
    assert("extras"@.len() != "outputs"@.len());
    assert(found(fields, "extras"@) == Some(Node::Table(rows)));
    assert(fields.skip(1)[0] == fields[1]);
    assert(found(fields.skip(1), "outputs"@) == Some(texts_value(output.outputs)));
    assert(output.outputs.take(0) =~= Seq::empty());
    lemma_texts_read(output.outputs, 0, Seq::empty(), "cached output path must be a string"@);
    lemma_extras_writable(output.extras, n);
    lemma_rows_numbered(output.extras, n);
    let start: Extras = Seq::empty();
    assert(rows.take(0) =~= Seq::empty());
    assert forall|k: u32|
        found(rows.take(0), #[trigger] decimal(k as int)) == (match found_number(start, k) {
            Some(texts) => Some(texts_value(texts)),
            None => None,
        }) by {}
    lemma_rows_read(rows, 0, start);
    let read = with_cached_extras(rows, 0, start)->Ok_0;
    assert(output.extras.take(n) =~= output.extras);
    assert forall|k: u32| #[trigger] found_number(read, k) == found_number(output.extras, k) by {
        lemma_extras_found(output.extras, n, k);
        let name = decimal(k as int);
        if let (Some(x), Some(y)) = (found_number(read, k), found_number(output.extras, k)) {
            assert(texts_value(x) == texts_value(y));
            lemma_texts_value_injective(x, y);
        }
    }
    lemma_numbers_unique(read, output.extras);
}

proof fn lemma_texts_value_injective(x: Seq<Seq<char>>, y: Seq<Seq<char>>)
    requires
        texts_value(x) == texts_value(y),
    ensures
        x == y,
{
    let a = texts_value(x)->Array_0;
    let b = texts_value(y)->Array_0;
    assert(a == b);
    assert(x.len() == a.len() && y.len() == b.len());
    assert forall|i: int| 0 <= i < x.len() implies x[i] == y[i] by {
        assert(a[i] == Node::Text(x[i]) && b[i] == Node::Text(y[i]));
    }
    assert(x =~= y);
}

/// The file that the output of a target is kept in.
pub open spec fn cache_file(context: ContextModel) -> Seq<char> {
    joined_path(
        work_dir(context.cache_dir, context.lockfile, context.target, context.target_hash),
        "build-output.json"@,
    )
}

pub fn build_output_cache_file(context: &Context) -> (r: String)
    requires
        context.target_hash is Some ==> context.target is Some,
    ensures
        r@ == cache_file(context.deep_view()),
{
    join_path(context.working_directory().as_str(), "build-output.json")
}

/// The file that the output of a target is written to before it takes the place
/// of what was kept.
pub fn build_output_temporary_file(context: &Context) -> (r: String)
    requires
        context.target_hash is Some ==> context.target is Some,
    ensures
        r@ == joined_path(
            work_dir(
                context.deep_view().cache_dir,
                context.deep_view().lockfile,
                context.deep_view().target,
                context.deep_view().target_hash,
            ),
            "build-output.json.tmp"@,
        ),
{
    join_path(context.working_directory().as_str(), "build-output.json.tmp")
}

/// Whether all of `paths[i..]` exist.
pub open spec fn all_existing(w: World, paths: Seq<Seq<char>>, i: int) -> Result<bool, Halt>
    decreases paths.len() - i,
{
    if i >= paths.len() {
        Ok(true)
    } else {
        match w.existing(paths[i]) {
            Err(stop) => Err(stop),
            Ok(false) => Ok(false),
            Ok(true) => all_existing(w, paths, i + 1),
        }
    }
}

pub fn build_output_paths_exist(known: &Known, output: &BuildOutput) -> (r: Result<bool, Stop>)
    ensures
        told(r) == all_existing(known.deep_view(), output_paths(output.deep_view()), 0),
{
    let paths = build_output_paths(output);
    let ghost w = known.deep_view();
    let ghost list = paths.deep_view();
    let mut i: usize = 0;
    while i < paths.len()
        invariant
            i <= paths.len(),
            w == known.deep_view(),
            list == paths.deep_view(),
            list == output_paths(output.deep_view()),
            all_existing(w, list, 0) == all_existing(w, list, i as int),
        decreases paths.len() - i,
    {
        assert(list[i as int] == paths@[i as int]@);
        if !known.is_present(paths[i].as_str())? {
            return Ok(false);
        }
        i = i + 1;
    }
    Ok(true)
}

/// The output that is kept in a file with the text `text`, if it can still be
/// used: everything that it names has to exist.
pub open spec fn usable_output(w: World, text: Option<Seq<char>>) -> Result<Option<Output>, Halt> {
    match text {
        None => Ok(None),
        Some(text) => match output_of_document(json_text(text)) {
            None => Ok(None),
            Some(output) => match all_existing(w, output_paths(output), 0) {
                Err(stop) => Err(stop),
                Ok(true) => Ok(Some(output)),
                Ok(false) => Ok(None),
            },
        },
    }
}

/// The output that can be used in place of a build; `text` is the text of the
/// file that it is kept in, if that can be read.
pub fn cached_build(known: &Known, text: &Option<String>) -> (r: Result<Option<BuildOutput>, Stop>)
    ensures
        told(r) == usable_output(known.deep_view(), text.deep_view()),
{
    match text {
        None => Ok(None),
        Some(text) => match read_cached_build_output(text.as_str()) {
            None => Ok(None),
            Some(output) => if build_output_paths_exist(known, &output)? {
                Ok(Some(output))
            } else {
                Ok(None)
            },
        },
    }
}

/// What is done when a task is to be built.
pub enum BuildMove {
    /// This is how the build ended: nothing is built.
    Record(BuildResult),
    /// The plugin is called.
    Build,
}

/// What a `BuildMove` says.
#[verifier::ext_equal]
pub enum BuildTurn {
    Record(Outcome),
    Build,
}

impl DeepView for BuildMove {
    type V = BuildTurn;

    open spec fn deep_view(&self) -> BuildTurn {
        match self {
            BuildMove::Record(result) => BuildTurn::Record(result.deep_view()),
            BuildMove::Build => BuildTurn::Build,
        }
    }
}

/// A kept output that can be used is the success of the build; else the plugin is
/// called.
pub open spec fn turn_after_cache(cached: Option<Output>) -> BuildTurn {
    match cached {
        Some(output) => BuildTurn::Record(Outcome::Success(output)),
        None => BuildTurn::Build,
    }
}

/// What is done when a task is to be built and `cached` is the output that can be
/// used in place of a build.
pub fn after_cache(cached: Option<BuildOutput>) -> (r: BuildMove)
    ensures
        r.deep_view() == turn_after_cache(cached.deep_view()),
{
    match cached {
        Some(output) => BuildMove::Record(BuildResult::Success(output)),
        None => BuildMove::Build,
    }
}

/// Whether the output of a build is kept: that of a success alone.
pub fn keeps_output(result: &BuildResult) -> (r: bool)
    ensures
        r == (result.deep_view() is Success),
{
    match result {
        BuildResult::Success(_) => true,
        BuildResult::Failure(_) => false,
    }
}

/// The text that an output is kept as is recorded in place of the next build, which
/// then calls no plugin, just where everything that the output names still exists.
pub proof fn law_kept_output_is_recorded(w: World, text: Seq<char>, output: Output, all_there: bool)
    requires
        output_of_document(json_text(text)) == Some(output),
        all_existing(w, output_paths(output), 0) == Ok::<bool, Halt>(all_there),
    ensures
        usable_output(w, Some(text)) is Ok,
        turn_after_cache(usable_output(w, Some(text))->Ok_0) == if all_there {
            BuildTurn::Record(Outcome::Success(output))
        } else {
            BuildTurn::Build
        },
{
}

} // verus!
