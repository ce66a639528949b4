use beview::json::{parse_json, Json};

#[test]
fn parse_object_members_in_key_order() {
    let j = parse_json(r#"{"b":1,"a":[true,null,"s"]}"#).unwrap();
    match &j {
        Json::Object(m) => {
            assert_eq!(m.len(), 2);
            assert_eq!(m[0].0, "a");
            assert_eq!(m[1].0, "b");
        }
        other => panic!("{other:?}"),
    }
    let a = j.get("a").and_then(|v| v.as_array()).unwrap();
    assert_eq!(a, &vec![Json::Bool(true), Json::Null, Json::Str("s".into())]);
    assert_eq!(j.get("b"), Some(&Json::Number("1".into())));
    assert!(j.get("c").is_none());
}

#[test]
fn parse_rejects_invalid_text() {
    assert!(parse_json("not-json").is_none());
    assert!(parse_json("{").is_none());
    assert_eq!(parse_json(" 2.5 "), Some(Json::Number("2.5".into())));
}

#[test]
fn accessors_on_other_values() {
    let s = Json::Str("x".into());
    assert_eq!(s.as_str().map(|x| x.as_str()), Some("x"));
    assert!(s.as_array().is_none());
    assert!(s.get("x").is_none());
    assert!(Json::Null.as_str().is_none());
}
