use codex_console::json::{Json, JsonObject};
use codex_console::json_text::{
    display_json, json_as_i64, json_from_i64, json_from_str, parse_json, stringify_json_or_string,
    stringify_map, write_indented, write_line, write_pretty,
};

#[test]
fn values_are_read_from_text() {
    let j = parse_json("{\"a\":[null,true,-3,\"x\"],\"b\":{}}").unwrap();
    let items = j.get("a").unwrap().as_array().unwrap();
    assert_eq!(items.len(), 4);
    assert_eq!(items[0], Json::Null);
    assert_eq!(items[1], Json::Bool(true));
    assert_eq!(json_as_i64(&items[2]), Some(-3));
    assert_eq!(items[3].as_str(), Some("x"));
    assert!(j.get("b").unwrap().as_object().unwrap().fields.is_empty());
    assert_eq!(j.get("c"), None);
    assert_eq!(items[3].get("a"), None);
}

#[test]
fn texts_that_are_no_values_are_refused() {
    assert_eq!(parse_json("nope"), Err("expected ident at line 1 column 2".to_string()));
    assert_eq!(
        parse_json(""),
        Err("EOF while parsing a value at line 1 column 0".to_string())
    );
}

#[test]
fn nesting_is_limited() {
    let deep = |n: usize| format!("{}{}", "[".repeat(n), "]".repeat(n));
    assert!(parse_json(&deep(127)).is_ok());
    assert_eq!(
        parse_json(&deep(128)),
        Err("recursion limit exceeded at line 1 column 128".to_string())
    );
}

#[test]
fn values_are_written_on_one_line() {
    let j = parse_json("{ \"b\" : \"x\\ny\" , \"a\" : [ 1 , 2 ] }").unwrap();
    assert_eq!(write_line(&j), Ok("{\"a\":[1,2],\"b\":\"x\\ny\"}".to_string()));
    assert_eq!(display_json(&j), "{\"a\":[1,2],\"b\":\"x\\ny\"}");
}

#[test]
fn written_values_are_read_again() {
    let j = parse_json("{\"n\":[-9223372036854775808,9223372036854775807],\"s\":\"\\u2028\"}")
        .unwrap();
    assert_eq!(parse_json(&write_line(&j).unwrap()), Ok(j));
}

#[test]
fn values_are_written_with_indentation() {
    let j = parse_json("{\"a\":[1],\"b\":{}}").unwrap();
    let text = "{\n  \"a\": [\n    1\n  ],\n  \"b\": {}\n}";
    assert_eq!(write_pretty(&j), Ok(text.to_string()));
    assert_eq!(write_indented(&j), text);
    assert_eq!(stringify_map(j.as_object().unwrap()), text);
    assert_eq!(stringify_json_or_string(&j), text);
}

#[test]
fn texts_show_as_they_are_and_null_as_nothing() {
    assert_eq!(stringify_json_or_string(&Json::Null), "");
    assert_eq!(stringify_json_or_string(&json_from_str("a\"b")), "a\"b");
    assert_eq!(stringify_json_or_string(&Json::Bool(false)), "false");
    assert_eq!(stringify_json_or_string(&json_from_i64(-4)), "-4");
}

#[test]
fn whole_numbers_are_told_from_others() {
    assert_eq!(json_as_i64(&json_from_i64(i64::MIN)), Some(i64::MIN));
    assert_eq!(json_as_i64(&parse_json("1.0").unwrap()), None);
    assert_eq!(json_as_i64(&parse_json("9223372036854775808").unwrap()), None);
    assert_eq!(json_as_i64(&json_from_str("1")), None);
    assert_eq!(json_from_i64(12), parse_json("12").unwrap());
}

#[test]
fn the_last_field_of_a_name_counts() {
    let j = parse_json("{\"a\":1,\"a\":2}").unwrap();
    assert_eq!(json_as_i64(j.get("a").unwrap()), Some(2));
    let twice = JsonObject {
        fields: vec![
            ("a".to_string(), json_from_i64(1)),
            ("b".to_string(), Json::Null),
            ("a".to_string(), json_from_i64(2)),
        ],
    };
    assert_eq!(json_as_i64(twice.get("a").unwrap()), Some(2));
    assert_eq!(
        write_line(&Json::Object(twice)),
        Ok("{\"a\":2,\"b\":null}".to_string())
    );
}

#[test]
fn fields_are_set_and_read() {
    let mut object = JsonObject::new();
    assert_eq!(object.get("k"), None);
    object.set("k", json_from_str("v"));
    assert_eq!(object.get_text("k"), Some("v"));
    object.set("k", json_from_i64(1));
    assert_eq!(object.get_text("k"), None);
    assert_eq!(object.get_text_or_empty("k"), "");
    object.set("l", json_from_str("w"));
    assert_eq!(object.get_text_or_empty("l"), "w");
    assert_eq!(object.fields.len(), 2);
}

#[test]
fn clones_are_equal() {
    let j = parse_json("{\"a\":[1.5,{\"b\":null}],\"c\":\"d\"}").unwrap();
    assert_eq!(j.clone(), j);
    assert_eq!(write_line(&j.clone()), Ok("{\"a\":[1.5,{\"b\":null}],\"c\":\"d\"}".to_string()));
}
