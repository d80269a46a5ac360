use glidewin::json::{parse_bytes, parse_text, plain, text, Json, Members};

#[test]
fn reads_every_kind_of_value() {
    let read = parse_text(r#"{"a":[null,true,12,-1.5,"x\n"],"b":{}}"#);
    assert_eq!(
        read,
        Some(Json::Object(vec![
            (
                "a".to_string(),
                Json::List(vec![
                    Json::Null,
                    Json::Bool(true),
                    Json::Number("12".to_string()),
                    Json::Number("-1.5".to_string()),
                    Json::Text("x\n".to_string()),
                ])
            ),
            ("b".to_string(), Json::Object(vec![])),
        ]))
    );
}

#[test]
fn text_and_bytes_read_alike() {
    let source = r#"[{"k":"é"},1]"#;
    assert_eq!(parse_bytes(source.as_bytes()), parse_text(source));
    assert!(parse_text(source).is_some());
}

#[test]
fn what_is_not_json_is_not_read() {
    assert_eq!(parse_text("{"), None);
    assert_eq!(parse_text(""), None);
    assert_eq!(parse_text("1 2"), None);
    assert_eq!(parse_bytes(&[0xff]), None);
}

#[test]
fn converts_values() {
    assert_eq!(plain(serde_json::Value::Bool(false)), Json::Bool(false));
    assert_eq!(
        plain(serde_json::Value::Array(vec![serde_json::Value::from("a"), serde_json::Value::from(7)])),
        Json::List(vec![text("a"), Json::Number("7".to_string())])
    );
}

#[test]
fn looks_up_members_and_items() {
    let j = parse_text(r#"{"a":[1,"two"],"b":"c"}"#).unwrap();
    assert_eq!(j.member_text("b"), Some("c".to_string()));
    assert_eq!(j.member_text("a"), None);
    assert_eq!(j.member_text("z"), None);
    assert_eq!(j.member("a").unwrap().item(1), Some(&text("two")));
    assert_eq!(j.member("a").unwrap().item(2), None);
    assert_eq!(j.item(0), None);
    assert_eq!(text("x").member("a"), None);
    assert_eq!(text("x").text(), Some("x".to_string()));
    assert_eq!(Json::Null.text(), None);
}

#[test]
fn builds_objects_in_order() {
    let j = Members::new().with("b", text("1")).with("a", Json::Null).object();
    assert_eq!(j, Json::Object(vec![("b".to_string(), text("1")), ("a".to_string(), Json::Null)]));
}
