//! Text and JSON.

use aside::json::{
    find_string, find_string_recursive, has_nonempty_key, json_of, parse_json, Json,
};
use aside::text::{comes_before, contains, same_text, split_lines, split_words, trim, trim_marks};

fn json(text: &str) -> Json {
    parse_json(text).expect("a JSON document")
}

#[test]
fn documents_are_read_in_full() {
    assert_eq!(
        parse_json(r#" {"b": [null, true, 1.50, "x"], "a": {}} "#),
        Some(Json::Object(vec![
            ("a".into(), Json::Object(vec![])),
            (
                "b".into(),
                Json::Array(vec![
                    Json::Null,
                    Json::Bool(true),
                    Json::Number("1.5".into()),
                    Json::Text("x".into()),
                ])
            ),
        ]))
    );
    assert_eq!(parse_json("{"), None);
    assert_eq!(parse_json(""), None);
    assert_eq!(parse_json("{} {}"), None);
}

#[test]
fn last_of_several_entries_with_one_key_is_read() {
    assert_eq!(
        parse_json(r#"{"a": 1, "a": 2}"#),
        Some(Json::Object(vec![("a".into(), Json::Number("2".into()))]))
    );
}

#[test]
fn entries_come_in_the_order_of_their_keys() {
    let mut map = serde_json::Map::new();
    map.insert("z".to_owned(), serde_json::Value::Null);
    map.insert("b".to_owned(), serde_json::Value::Null);
    map.insert("Z".to_owned(), serde_json::Value::Null);
    match json_of(serde_json::Value::Object(map)) {
        Json::Object(entries) => {
            let keys: Vec<&str> = entries.iter().map(|entry| entry.0.as_str()).collect();
            assert_eq!(keys, vec!["Z", "b", "z"]);
        }
        other => panic!("{other:?}"),
    }
}

#[test]
fn values_are_looked_up_by_key() {
    let value = json(r#"{"a": "x", "b": true, "c": [1]}"#);
    assert_eq!(value.get("a").and_then(|found| found.as_text()), Some("x"));
    assert_eq!(value.get_text("a"), Some("x"));
    assert_eq!(value.get_text("b"), None);
    assert!(value.is_true("b"));
    assert!(!value.is_true("a"));
    assert_eq!(value.get("d"), None);
    assert_eq!(Json::Null.get("a"), None);
    assert_eq!(value.clone(), value);
}

#[test]
fn search_goes_through_objects_before_what_they_hold() {
    let value = json(r#"{"a": {"k": "inner"}, "k": "outer", "z": {"l": "deep"}}"#);
    assert_eq!(find_string_recursive(&value, &["k"]), Some("outer".into()));
    assert_eq!(find_string_recursive(&value, &["l", "k"]), Some("outer".into()));
    assert_eq!(find_string_recursive(&value, &["l"]), Some("deep".into()));
    assert_eq!(find_string_recursive(&value, &["m"]), None);
    let array = json(r#"[{"k": ""}, [{"k": 1}, {"k": "third"}], {"k": "last"}]"#);
    assert_eq!(find_string_recursive(&array, &["k"]), Some("third".into()));
    assert_eq!(find_string(&[&Json::Null, &array], &["k"]), Some("third".into()));
    assert_eq!(find_string(&[], &["k"]), None);
}

#[test]
fn presence_is_what_a_search_finds() {
    let value = json(r#"[{"x": {"error": "e"}}, {"other": ""}]"#);
    assert!(has_nonempty_key(&value, "error"));
    assert!(!has_nonempty_key(&value, "other"));
    assert!(!has_nonempty_key(&Json::Text("error".into()), "error"));
}

#[test]
fn lines_end_at_line_feeds() {
    assert_eq!(split_lines("a\r\nb\n\nc\r"), vec!["a", "b", "", "c\r"]);
    assert_eq!(split_lines("a\n"), vec!["a"]);
    assert_eq!(split_lines("\r\n"), vec![""]);
    assert!(split_lines("").is_empty());
    for text in ["a\r\nb\n\nc\r", "\n\n", "x", "\r\r\n\u{2028}y"] {
        assert_eq!(split_lines(text), text.lines().collect::<Vec<_>>());
    }
}

#[test]
fn words_are_split_at_white_space() {
    for text in ["", "  ", " a  b\tc\u{a0}d\u{3000}", "\u{200b}e\u{85}f", "\u{1c}g\u{b}h"] {
        assert_eq!(split_words(text), text.split_whitespace().collect::<Vec<_>>());
    }
}

#[test]
fn white_space_is_trimmed_at_both_ends() {
    for text in ["", " \u{2003}x y\u{202f}\n", "\u{feff}z", "\u{180e}w "] {
        assert_eq!(trim(text), text.trim());
        assert_eq!(trim(trim(text)), trim(text));
    }
    assert_eq!(trim_marks("*,u0:*"), "u0");
    assert_eq!(trim_marks("*:"), "");
}

#[test]
fn texts_are_compared_by_code_points() {
    let texts = ["", "a", "ab", "b", "\u{e9}", "\u{ffff}", "\u{10000}"];
    for a in texts {
        for b in texts {
            assert_eq!(same_text(a, b), a == b);
            assert_eq!(comes_before(a, b), a < b);
            assert_eq!(contains(a, b), a.contains(b));
        }
    }
    assert!(contains("xxab", "xab"));
    assert!(!contains("xxa", "xab"));
}
