use thicket::json::{from_value, object, parse, parse_bytes, print, to_value, Json, MAX_DEPTH};

fn text(s: &str) -> Json {
    Json::Text(s.to_string())
}

#[test]
fn documents_are_read() {
    let json = parse(r#"{"b": [1, null, true, "x"], "a": {}}"#).unwrap();
    assert_eq!(
        to_value(&json).to_string(),
        r#"{"a":{},"b":[1,null,true,"x"]}"#
    );
    assert_eq!(parse(" \"x\" "), Some(text("x")));
    assert_eq!(parse("null"), Some(Json::Null));
    assert_eq!(parse("false"), Some(Json::Bool(false)));
    assert_eq!(parse("{"), None);
    assert_eq!(parse("1 2"), None);
    assert_eq!(parse(""), None);
}

#[test]
fn bytes_are_read() {
    assert_eq!(parse_bytes(b"\"\xc3\xa9\""), Some(text("\u{e9}")));
    assert_eq!(parse_bytes(b"\"\xff\""), None);
    assert_eq!(parse_bytes(b""), None);
}

#[test]
fn numbers_are_kept() {
    for number in ["0", "18446744073709551615", "-1", "1.5", "-9223372036854775808"] {
        let json = parse(number).unwrap();
        assert_eq!(print(&json).unwrap(), number);
    }
    assert_eq!(to_value(&Json::Count(7)).as_u64(), Some(7));
    assert_eq!(
        to_value(&from_value(serde_json::Value::from(2.5))).as_f64(),
        Some(2.5)
    );
    assert_eq!(print(&Json::Count(7)).unwrap(), "7");
    assert_eq!(parse("7"), Some(Json::Count(7)));
    assert_eq!(parse("-7"), Some(Json::Integer(-7)));
    assert_eq!(
        parse("-9223372036854775808"),
        Some(Json::Integer(i64::MIN))
    );
    assert_eq!(to_value(&Json::Integer(-7)).as_i64(), Some(-7));
    assert_eq!(print(&Json::Integer(-7)).unwrap(), "-7");
    assert_eq!(from_value(to_value(&Json::Integer(7))), Json::Count(7));
}

#[test]
fn objects_are_walked_in_the_order_of_their_keys() {
    match parse(r#"{"b":1,"z":2,"a":3,"B":4,"":5,"b":6}"#) {
        Some(Json::Object(entries)) => {
            let keys: Vec<String> = entries.into_iter().map(|(key, _)| key).collect();
            assert_eq!(keys, vec!["", "B", "a", "b", "z"]);
        }
        other => panic!("{:?}", other),
    }
}

#[test]
fn fields_are_found_and_set() {
    let mut json = Json::Null;
    assert_eq!(json.get("a"), None);
    json.set("m", Json::Count(1));
    json.set("a", Json::Count(2));
    json.set("z", Json::Count(3));
    json.set("m", Json::Count(4));
    assert_eq!(json.get("m"), Some(&Json::Count(4)));
    assert_eq!(json.get("a"), Some(&Json::Count(2)));
    assert_eq!(json.get("z"), Some(&Json::Count(3)));
    assert_eq!(json.get("b"), None);
    assert_eq!(print(&json).unwrap(), r#"{"a":2,"m":4,"z":3}"#);
}

#[test]
fn texts_are_found() {
    let json = parse(r#"{"s":"x","n":1}"#).unwrap();
    assert_eq!(json.get_text("s"), Some("x".to_string()));
    assert_eq!(json.get_text("n"), None);
    assert_eq!(json.get_text("o"), None);
    assert_eq!(parse("[\"s\"]").unwrap().get("s"), None);
    assert_eq!(Json::Null.as_text(), None);
}

#[test]
fn objects_are_made_of_fields() {
    let json = object(vec![
        ("b", Json::Count(1)),
        ("a", Json::Count(2)),
        ("b", Json::Count(3)),
    ]);
    assert_eq!(print(&json).unwrap(), r#"{"a":2,"b":3}"#);
}

#[test]
fn order_of_different_fields_makes_no_difference() {
    let one = object(vec![("b", Json::Count(1)), ("a", Json::Count(2))]);
    let two = object(vec![("a", Json::Count(2)), ("b", Json::Count(1))]);
    assert_eq!(one, two);
}

fn nested(depth: usize) -> String {
    format!("{}{}", "[".repeat(depth), "]".repeat(depth))
}

#[test]
fn nesting_is_read_back_up_to_the_bound() {
    let deepest = nested(MAX_DEPTH as usize);
    let json = parse(&deepest).unwrap();
    assert_eq!(print(&json).unwrap(), deepest);
    assert_eq!(parse(&nested(MAX_DEPTH as usize + 1)), None);
}

#[test]
fn what_is_written_is_read_back() {
    let written = r#"{"a":[null,true,0,"\u0000\\\"\u001f"],"b":{"":{}}}"#;
    let json = parse(written).unwrap();
    assert_eq!(print(&json).unwrap(), written);
    assert_eq!(parse(&print(&json).unwrap()), parse(written));
    assert_eq!(from_value(to_value(&json)), json);
}

#[test]
fn copies_are_equal() {
    let json = parse(r#"{"a":[1,-2,"x",null,true],"b":{}}"#).unwrap();
    assert_eq!(json.clone(), json);
}
