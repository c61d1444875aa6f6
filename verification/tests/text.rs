use wayward::format::{equals_ignoring_case, pad_left, pad_right, parse_i64, parse_u32, truncate};
use wayward::json::{parse, Json};
use wayward::number::{difference, divided, magnitude, sum};
use wayward::order::{order_of, sort_texts};
use wayward::paths::join as join_path;
use wayward::split::{begins_with, drop_empty, holds, join, last_piece, lines, split, strip_suffixes, swap_char};
use wayward::table::Table;
use wayward::text::{decimal, first_word, same, signed_decimal, space, trim};

#[test]
fn white_space_is_that_of_unicode() {
    for code in 0..=0x10_ffff_u32 {
        if let Some(c) = char::from_u32(code) {
            assert_eq!(space(c), c.is_whitespace(), "{code:x}");
        }
    }
}

#[test]
fn texts_are_trimmed_and_split_as_usual() {
    for text in ["", " ", "a", " a b ", "\u{2003}x\u{a0}", "\r\na\n\n", "a\0b\0\0", "a\r\nb\rc\n", "\n"] {
        assert_eq!(trim(text), text.trim());
        assert_eq!(first_word(text).as_deref(), text.split_whitespace().next());
        assert_eq!(lines(text), text.lines().map(str::to_string).collect::<Vec<_>>());
        let pieces: Vec<String> = text.split('\0').map(str::to_string).collect();
        assert_eq!(split(text, '\0'), pieces);
        assert_eq!(join(&pieces, "··"), pieces.join("··"));
        assert_eq!(last_piece(text, 'b'), text.rsplit('b').next().unwrap());
        assert_eq!(holds(text, "a"), text.contains('a'));
        assert_eq!(swap_char(text, 'a', 'é'), text.replace('a', "é"));
        assert_eq!(begins_with(text, "a"), text.starts_with('a'));
        assert_eq!(strip_suffixes(text, "\n"), text.trim_end_matches('\n'));
        assert!(same(text, text) && !same(text, "something else"));
    }
    assert_eq!(drop_empty(vec![String::new(), "x".to_string(), String::new()]), vec!["x"]);
    assert!(holds("anything", ""));
    assert_eq!(strip_suffixes("x (deleted) (deleted)", " (deleted)"), "x");
}

#[test]
fn numbers_are_written_and_read() {
    for n in [0, 9, 10, 1_234_567_890, u64::MAX] {
        assert_eq!(decimal(n), n.to_string());
    }
    for n in [0, -1, i64::MIN, i64::MAX] {
        assert_eq!(signed_decimal(n), n.to_string());
    }
    for text in ["", "+", "-", "0", "-0", "+7", "007", "9223372036854775807", "9223372036854775808",
        "-9223372036854775808", "-9223372036854775809", "12a", " 1", "１", "4294967295", "4294967296", "-1"]
    {
        assert_eq!(parse_i64(text), text.parse::<i64>().ok(), "{text}");
        assert_eq!(parse_u32(text), text.parse::<u32>().ok(), "{text}");
    }
    assert_eq!(sum(i64::MAX, 1), i64::MIN);
    assert_eq!(difference(i64::MIN, 1), i64::MAX);
    assert_eq!(magnitude(-3), 3);
    assert_eq!(magnitude(i64::MIN), i64::MIN);
    assert_eq!(divided(-1_999_999, 1_000_000), -1);
    assert_eq!(divided(1_999_999, 1_000_000), 1);
    assert_eq!(divided(i64::MIN, 1), i64::MIN);
}

#[test]
fn columns_are_filled_and_cut_by_characters() {
    assert_eq!(pad_right("ñ", 3), format!("{:<3}", "ñ"));
    assert_eq!(pad_left("ñ", 3), format!("{:>3}", "ñ"));
    assert_eq!(pad_right("abcd", 3), "abcd");
    assert_eq!(truncate("añb", 3), "añb");
    assert_eq!(truncate("añbc", 3), "añ…");
    assert_eq!(truncate("ab", 0), "…");
    assert!(equals_ignoring_case("yEs", "YES"));
    assert!(!equals_ignoring_case("é", "É"));
    assert!(!equals_ignoring_case("ye", "yes"));
}

#[test]
fn sorting_is_stable() {
    assert_eq!(order_of(&vec![vec![2], vec![1], vec![2, 0], vec![], vec![1]]), vec![3, 1, 4, 0, 2]);
    let words: Vec<String> = ["b", "", "ab", "é", "a", "Z"].iter().map(|w| w.to_string()).collect();
    let mut expected = words.clone();
    expected.sort();
    assert_eq!(sort_texts(&words), expected);
}

#[test]
fn tables_keep_one_value_for_each_text() {
    let mut table = Table::new();
    table.insert("b".to_string(), 1);
    table.insert("a".to_string(), 2);
    table.insert("b".to_string(), 3);
    assert_eq!(table.len(), 2);
    assert_eq!((table.key_at(0), *table.value_at(0)), ("b", 3));
    assert_eq!(table.get("a"), Some(&2));
    assert_eq!(table.get("c"), None);
}

#[test]
fn paths_are_joined_as_usual() {
    for (base, part) in [("/a", "b"), ("/a/", "b"), ("", "b"), ("/a", "/b"), ("a", "")] {
        let expected = std::path::Path::new(base).join(part);
        assert_eq!(join_path(base.as_bytes().to_vec(), part), expected.to_str().unwrap().as_bytes());
    }
}

fn plain(j: &Json) -> serde_json::Value {
    match j {
        Json::Null => serde_json::Value::Null,
        Json::Bool(b) => serde_json::Value::from(*b),
        Json::Unsigned(n) => serde_json::Value::from(*n),
        Json::Negative(n) => serde_json::Value::from(*n),
        Json::Float(bits) => serde_json::Value::from(f64::from_bits(*bits)),
        Json::Str(s) => serde_json::Value::from(s.as_str()),
        Json::Array(items) => items.iter().map(plain).collect(),
        Json::Object(fields) => fields.iter().map(|(k, v)| (k.clone(), plain(v))).collect(),
    }
}

#[test]
fn json_is_written_in_two_forms() {
    let value = Json::Object(vec![
        ("b".to_string(), Json::Array(vec![Json::Negative(-3), Json::Null, Json::Bool(true)])),
        ("a".to_string(), Json::Unsigned(1)),
        ("c".to_string(), Json::string("q\"\n")),
        ("a".to_string(), Json::Unsigned(2)),
        ("d".to_string(), Json::object()),
    ]);
    assert_eq!(
        value.compact().unwrap(),
        "{\"a\":2,\"b\":[-3,null,true],\"c\":\"q\\\"\\n\",\"d\":{}}"
    );
    assert_eq!(
        value.pretty().unwrap(),
        "{\n  \"a\": 2,\n  \"b\": [\n    -3,\n    null,\n    true\n  ],\n  \"c\": \"q\\\"\\n\",\n  \"d\": {}\n}"
    );
    assert_eq!(value.pretty().unwrap(), serde_json::to_string_pretty(&plain(&value)).unwrap());
    assert_eq!(value.compact().unwrap(), plain(&value).to_string());
}

#[test]
fn a_double_is_left_to_others() {
    let double = || Json::Float(1.5f64.to_bits());
    assert!(double().pretty().is_none());
    assert!(double().compact().is_none());
    assert!(Json::Array(vec![Json::Null, double()]).compact().is_none());
    assert!(Json::Object(vec![("a".to_string(), double())]).pretty().is_none());
    let replaced =
        Json::Object(vec![("a".to_string(), double()), ("a".to_string(), Json::Unsigned(7))]);
    assert_eq!(replaced.compact().unwrap(), "{\"a\":7}");
    assert!(Json::Negative(3).compact().is_none());
}

#[test]
fn json_is_read_as_it_is_written() {
    for text in [
        "null", "true", "0", "18446744073709551615", "-9223372036854775808", "1.5", "-0.0", "1e300",
        "\"\\u00f1\"", "[]", "{}", "[1, [2, {\"a\": null, \"b\": [false]}]]",
    ] {
        let expected: serde_json::Value = serde_json::from_str(text).unwrap();
        assert_eq!(plain(&parse(text).unwrap()), expected, "{text}");
        assert_eq!(plain(&parse(text).unwrap().copy()), expected, "{text}");
    }
    for text in ["", "{", "nul", "[1,]", "1 2", "'a'"] {
        assert!(parse(text).is_none(), "{text}");
    }
    let value = parse(r#"{"a": 1, "n": -2, "big": 18446744073709551615, "s": "t"}"#).unwrap();
    assert_eq!(value.get("a").unwrap().as_u64(), Some(1));
    assert_eq!(value.get("n").unwrap().as_i64(), Some(-2));
    assert_eq!(value.get("n").unwrap().as_u64(), None);
    assert_eq!(value.get("big").unwrap().as_i64(), None);
    assert_eq!(value.get("s").unwrap().as_str(), Some("t"));
    assert!(value.get("missing").is_none() && value.at(0).is_none());
    assert_eq!(parse("[7]").unwrap().at(0).unwrap().as_u64(), Some(7));
    assert!(parse("[7]").unwrap().at(1).is_none());
}
