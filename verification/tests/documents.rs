use session_import::codec::{from_value, read_json, to_value, write_json};
use session_import::json::{Json, JsonObject};
use session_import::text::trim;

#[test]
fn members_are_set_found_and_removed() {
    let mut object = JsonObject::new();
    assert!(object.get("a").is_none());
    object.insert("a", Json::Bool(true));
    object.insert("b", Json::Null);
    object.insert("a", Json::Unsigned(4));
    assert!(matches!(object.get("a"), Some(Json::Unsigned(4))));
    assert!(matches!(object.get("b"), Some(Json::Null)));
    object.remove("a");
    assert!(object.get("a").is_none());
    assert!(object.get("b").is_some());
    object.remove("missing");
    assert!(object.get("b").is_some());
}

#[test]
fn last_entry_counts() {
    let mut object = JsonObject::from_entries(vec![
        ("k".to_string(), Json::Unsigned(1)),
        ("k".to_string(), Json::Unsigned(2)),
    ]);
    assert!(matches!(object.get("k"), Some(Json::Unsigned(2))));
    object.remove("k");
    assert!(object.get("k").is_none());
}

#[test]
fn members_change_in_place() {
    let mut object = JsonObject::new();
    object.insert("o", Json::Object(JsonObject::new()));
    object.insert("l", Json::List(vec![Json::Null]));
    object.object_mut("o").unwrap().insert("x", Json::Text("y".to_string()));
    object.list_mut("l").unwrap().push(Json::Bool(false));
    assert!(object.object_mut("l").is_none());
    assert!(object.list_mut("o").is_none());
    assert!(object.get_mut("none").is_none());
    *object.get_mut("l").unwrap() = Json::Null;
    assert!(matches!(object.get("l"), Some(Json::Null)));
    match object.get("o") {
        Some(Json::Object(inner)) => assert_eq!(inner.get_text("x"), Some("y".to_string())),
        other => panic!("{other:?}"),
    }
    assert_eq!(object.get_text("o"), None);
}

#[test]
fn documents_are_read_and_written() {
    let bytes = br#"{"b":[null,true,false,18446744073709551615,-3,1.5],"a":{"text":"\u00e9\n"}}"#;
    let json = read_json(bytes).expect("JSON");
    let value: serde_json::Value = serde_json::from_slice(bytes).expect("JSON");
    match &json {
        Json::Object(members) => match members.get("b") {
            Some(Json::List(items)) => {
                assert!(matches!(items[0], Json::Null));
                assert!(matches!(items[1], Json::Bool(true)));
                assert!(matches!(items[3], Json::Unsigned(u64::MAX)));
                assert!(matches!(&items[4], Json::Number(n) if n.as_i64() == Some(-3)));
                assert!(matches!(&items[5], Json::Number(n) if n.as_f64() == Some(1.5)));
            }
            other => panic!("{other:?}"),
        },
        other => panic!("{other:?}"),
    }
    assert_eq!(to_value(from_value(value.clone())), value);
    let written = write_json(json);
    assert_eq!(written, serde_json::to_vec(&value).unwrap());
    assert_eq!(
        serde_json::from_slice::<serde_json::Value>(&written).unwrap(),
        value
    );
}

#[test]
fn bytes_that_are_no_document() {
    let error = read_json(b"{\"a\":").unwrap_err();
    let expected = serde_json::from_slice::<serde_json::Value>(b"{\"a\":").unwrap_err();
    assert_eq!(error, expected.to_string());
    assert_eq!(error, "EOF while parsing a value at line 1 column 5");
}

#[test]
fn written_numbers() {
    assert_eq!(write_json(Json::Unsigned(1718000000000)), b"1718000000000");
    assert_eq!(
        write_json(Json::Number(serde_json::Number::from(12u64))),
        b"12"
    );
    assert_eq!(write_json(Json::List(vec![])), b"[]");
}

#[test]
fn trimming_takes_off_all_white_space() {
    assert_eq!(trim(" \t a b\u{a0}\r\n"), "a b");
    assert_eq!(trim(" \n "), "");
    assert_eq!(trim(""), "");
    for n in 0..=0x10ffffu32 {
        if let Some(c) = char::from_u32(n) {
            let text = format!("{c}x{c}");
            if c.is_whitespace() {
                assert_eq!(trim(&text), "x");
            } else if n < 0x3100 || n % 97 == 0 {
                assert_eq!(trim(&text), text);
            }
        }
    }
}
