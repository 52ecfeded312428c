//! Texts, tables, paths, numbers and documents.

use cbs::digest::{
    append_text, append_u32, append_u64, byte_length, byte_range, decimal_of, describe_number_fault, hex_bytes_of, hex_of,
    hex_padded_of, leading_u64, parse_number, short_digest_of, NumberFault,
};
use cbs::documents::{read_json_bytes, read_json_text, read_toml, write_json};
use cbs::error::ErrorKind;
use cbs::path::{file_name, has_parent_step, is_absolute, join_path, parent, starts_with, strip_path};
use cbs::table::{in_order, Numbered, Table};
use cbs::text::{
    contains, join, lines, precedes, replace, rsplit_once, same_ignoring_case, split, split_once, split_whitespace, trim,
    trim_end_matches, trim_matches,
};
use cbs::value::{bool_at, table_at, text_at, text_or, texts_at, ConfigValue};

fn owned(items: &[&str]) -> Vec<String> {
    items.iter().map(|item| item.to_string()).collect()
}

#[test]
fn texts_are_cut_and_joined() {
    assert_eq!(split("a:b::c", ':'), owned(&["a", "b", "", "c"]));
    assert_eq!(split("", ':'), owned(&[""]));
    assert_eq!(join(&owned(&["a", "b", "c"]), ", "), "a, b, c");
    assert_eq!(join(&Vec::new(), ", "), "");
    assert_eq!(split_once("k=v=w", '='), Some(("k".to_string(), "v=w".to_string())));
    assert_eq!(split_once("kv", '='), None);
    assert_eq!(rsplit_once("k=v=w", '='), Some(("k=v".to_string(), "w".to_string())));
    assert_eq!(split_whitespace(" a \t b\nc "), owned(&["a", "b", "c"]));
    assert_eq!(lines("a\nb\r\n\nc\n"), owned(&["a", "b", "", "c"]));
    assert_eq!(lines(""), Vec::<String>::new());
    assert_eq!(lines("a\r"), owned(&["a\r"]));
    assert_eq!(lines("a\r\nb\r"), owned(&["a", "b\r"]));
    assert_eq!(lines("a\r\r\n"), owned(&["a\r"]));
    for text in ["", "\n", "\r", "\r\n", "\n\r", "a\n\nb", "a\r\n\r\nb\r\n", "\r\r", "a\nb\r\n\r"] {
        assert_eq!(lines(text), text.lines().map(|line| line.to_string()).collect::<Vec<_>>());
    }
}

#[test]
fn paths_lie_below_others() {
    assert_eq!(strip_path("/./app", "/"), Some("app".to_string()));
    assert_eq!(strip_path("/ws/a//b/./", "/ws"), Some("a//b".to_string()));
    assert_eq!(strip_path("/ws/../x", "/ws"), Some("../x".to_string()));
    assert_eq!(strip_path("/ws", "/ws/"), Some("".to_string()));
    assert_eq!(strip_path("/ws2", "/ws"), None);
    assert_eq!(strip_path("ws/a", "/ws"), None);
    let paths = [
        "", ".", "/", "//", "./", "/.", "./.", "a", "a/", "a/.", "./a", ".//a", "/a", "//a", "/./a", "/a/b", "/a//b/c", "a/b",
        "a/./b/c/.", "a/../b", "..", "../a", "/a/b/", "./a/b//c",
    ];
    for path in paths {
        for base in paths {
            let expected = std::path::Path::new(path).strip_prefix(base).ok();
            assert_eq!(strip_path(path, base), expected.map(|rest| rest.to_str().unwrap().to_string()), "{path} {base}");
        }
    }
}

#[test]
fn texts_joined_and_cut_again_are_the_same() {
    let parts = owned(&["one", "", "three"]);
    assert_eq!(split(&join(&parts, ","), ','), parts);
}

#[test]
fn texts_are_trimmed() {
    assert_eq!(trim("  a b \n"), "a b");
    assert_eq!(trim(" \t "), "");
    assert_eq!(trim_matches("//a/b//", '/'), "a/b");
    assert_eq!(trim_end_matches("//a/b//", '/'), "//a/b");
    assert_eq!(replace("a:b:c", ':', "__"), "a__b__c");
    assert!(contains("hello world", "lo w"));
    assert!(!contains("hello", "world"));
    assert!(same_ignoring_case("ABCdef", "abcDEF"));
    assert!(!same_ignoring_case("abc", "abd"));
    assert!(precedes("a", "b"));
    assert!(precedes("a", "aa"));
    assert!(!precedes("b", "b"));
}

#[test]
fn tables_are_in_order_and_hold_each_name_once() {
    let mut table: Table<u32> = Table::new();
    table.insert("b".to_string(), 1);
    table.insert("a".to_string(), 2);
    table.insert("b".to_string(), 3);
    assert_eq!(table.get("b"), Some(&3));
    assert_eq!(table.get("a"), Some(&2));
    assert_eq!(table.get("c"), None);
    assert!(table.has("a"));
    assert!(!table.has("c"));
    let names: Vec<&String> = table.rows.iter().map(|row| &row.0).collect();
    assert_eq!(names, vec!["a", "b"]);
    assert_eq!(in_order(&owned(&["b", "a", "b"])), owned(&["a", "b"]));
    let mut numbered: Numbered<&str> = Numbered::new();
    numbered.insert(7, "seven");
    numbered.insert(2, "two");
    numbered.insert(7, "more");
    assert_eq!(numbered.get(7), Some(&"more"));
    assert_eq!(numbered.get(3), None);
    assert_eq!(numbered.rows, vec![(2, "two"), (7, "more")]);
}

#[test]
fn paths_are_put_together_and_taken_apart() {
    assert_eq!(join_path("/a/b", "c/d"), "/a/b/c/d");
    assert_eq!(join_path("/a/b/", "c"), "/a/b/c");
    assert_eq!(join_path("/a", "/c"), "/c");
    assert_eq!(join_path("", "c"), "c");
    assert_eq!(parent("/a/b"), Some("/a".to_string()));
    assert_eq!(parent("/"), None);
    assert_eq!(parent("a"), Some("".to_string()));
    assert_eq!(file_name("/a/b.rs"), Some("b.rs".to_string()));
    assert_eq!(file_name("/a/.."), None);
    assert_eq!(file_name("/"), None);
    assert!(is_absolute("/a"));
    assert!(!is_absolute("a"));
    assert!(has_parent_step("a/../b"));
    assert!(!has_parent_step("a/..b"));
    assert!(starts_with("/a/b/c", "/a/b"));
    assert!(!starts_with("/a/bc", "/a/b"));
    assert!(starts_with("/a//b/./c", "/a/b"));
}

#[test]
fn digests_are_those_of_sha_256() {
    assert_eq!(short_digest_of(&Vec::new()), 0xe3b0c44298fc1c14);
    assert_eq!(short_digest_of(&b"abc".to_vec()), 0xba7816bf8f01cfea);
    assert_eq!(leading_u64(&vec![1, 2, 3, 4, 5, 6, 7, 8, 9]), 0x0102030405060708);
}

#[test]
fn bytes_are_written_with_the_highest_first() {
    let mut out: Vec<u8> = Vec::new();
    append_u64(&mut out, 0x0102030405060708);
    append_u32(&mut out, 0x0a0b0c0d);
    append_text(&mut out, "é");
    assert_eq!(out, vec![1, 2, 3, 4, 5, 6, 7, 8, 0x0a, 0x0b, 0x0c, 0x0d, 0xc3, 0xa9]);
}

#[test]
fn positions_in_texts_are_those_of_bytes() {
    assert_eq!(byte_length("aé€"), 6);
    assert_eq!(byte_range("aé€b", 1, 6), "é€");
    assert_eq!(byte_range("abc", 0, 3), "abc");
}

#[test]
fn numbers_are_written_and_read() {
    assert_eq!(hex_of(0x6ebb3cba5d8c8cf3), "6ebb3cba5d8c8cf3");
    assert_eq!(hex_of(0), "0");
    assert_eq!(hex_padded_of(0xff, 4), "00ff");
    assert_eq!(hex_bytes_of(&vec![0, 171, 255]), "00abff");
    assert_eq!(decimal_of(18446744073709551615), "18446744073709551615");
    assert_eq!(parse_number(&decimal_of(4096), 4294967295), Ok(4096));
    assert_eq!(parse_number("+7", 100), Ok(7));
    assert_eq!(parse_number("", 100), Err(NumberFault::Empty));
    assert_eq!(parse_number("7a", 100), Err(NumberFault::InvalidDigit));
    assert_eq!(parse_number("101", 100), Err(NumberFault::TooLarge));
    assert_eq!(describe_number_fault(NumberFault::Empty), "cannot parse integer from empty string");
    assert_eq!(describe_number_fault(NumberFault::InvalidDigit), "invalid digit found in string");
    assert_eq!(describe_number_fault(NumberFault::TooLarge), "number too large to fit in target type");
}

#[test]
fn toml_is_read() {
    let table = read_toml("name = \"x\"\non = true\nlist = [\"a\", 1, \"b\"]\n[inner]\nk = \"v\"\n").unwrap();
    assert_eq!(text_at(&table, "name"), Some("x".to_string()));
    assert_eq!(text_or(&table, "none", "other"), "other");
    assert_eq!(bool_at(&table, "on"), Some(true));
    assert_eq!(bool_at(&table, "name"), None);
    assert_eq!(texts_at(&table, "list"), owned(&["a", "b"]));
    assert_eq!(text_at(table_at(&table, "inner").unwrap(), "k"), Some("v".to_string()));
    let table = read_toml("i = -3\nf = 0.5\nd = 1979-05-27\n").unwrap();
    assert!(matches!(table.get("i"), Some(ConfigValue::Integer(-3))));
    assert!(matches!(table.get("f"), Some(ConfigValue::Number(bits)) if *bits == 0.5f64.to_bits()));
    assert!(matches!(table.get("d"), Some(ConfigValue::Date(date)) if date == "1979-05-27"));
    let e = match read_toml("name = ") {
        Err(e) => e,
        Ok(_) => panic!("no table"),
    };
    assert_eq!(e.kind, ErrorKind::InvalidData);
    assert!(e.message.starts_with("TOML parse error at line 1"));
}

#[test]
fn json_is_read_and_written() {
    let text = "{\"b\":[\"x\\n\",true,null,{}],\"a\":\"\\u00e9\"}";
    let value = read_json_text(text).unwrap();
    let table = value.as_table().unwrap();
    assert_eq!(text_at(table, "a"), Some("é".to_string()));
    let items = table.get("b").unwrap().as_array().unwrap();
    assert_eq!(items[0].as_str(), Some("x\n"));
    assert_eq!(items[1].as_bool(), Some(true));
    assert!(matches!(items[2], ConfigValue::Null));
    assert_eq!(write_json(&value), "{\"a\":\"é\",\"b\":[\"x\\n\",true,null,{}]}");
    let again = read_json_bytes(&write_json(&value).into_bytes()).unwrap();
    assert_eq!(write_json(&again), write_json(&value));
    let e = match read_json_text("{\"a\":") {
        Err(e) => e,
        Ok(_) => panic!("no value"),
    };
    assert_eq!(e.kind, ErrorKind::InvalidData);
    assert_eq!(e.message, "EOF while parsing a value at line 1 column 5");
    assert!(read_json_bytes(&vec![0xff]).is_err());
}
