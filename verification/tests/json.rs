use xai_gork_telegram::json::{parse_array_index, Json, JsonNumber};

fn obj(members: Vec<(&str, Json)>) -> Json {
    Json::Object(members.into_iter().map(|(k, v)| (k.to_string(), v)).collect())
}

fn s(t: &str) -> Json {
    Json::Str(t.to_string())
}

#[test]
fn array_index_tokens() {
    assert_eq!(parse_array_index("0"), Some(0));
    assert_eq!(parse_array_index("12"), Some(12));
    assert_eq!(parse_array_index("01"), None);
    assert_eq!(parse_array_index("+1"), None);
    assert_eq!(parse_array_index("-1"), None);
    assert_eq!(parse_array_index(""), None);
    assert_eq!(parse_array_index("1a"), None);
    assert_eq!(parse_array_index("99999999999999999999999"), None);
}

#[test]
fn lookups_and_pointer_steps() {
    let v = obj(vec![
        ("a", Json::Array(vec![s("x"), obj(vec![("b", s("y"))])])),
        ("0", s("zero")),
        ("a", s("shadowed")),
    ]);
    assert_eq!(v.get("a").unwrap().at("1").unwrap().get("b").unwrap().as_str(), Some("y"));
    assert_eq!(v.at("0").unwrap().as_str(), Some("zero"));
    assert!(v.get("a").unwrap().at("2").is_none());
    assert!(v.get("a").unwrap().at("b").is_none());
    assert!(v.get("missing").is_none());
    assert!(s("x").get("a").is_none());
    assert_eq!(Json::Number(JsonNumber::PosInt(7)).as_u64(), Some(7));
    assert_eq!(Json::Number(JsonNumber::NegInt(-7)).as_u64(), None);
    assert_eq!(v.get("a").unwrap().as_array().unwrap().len(), 2);
}

#[test]
fn copies_are_equal() {
    let v = obj(vec![
        ("n", Json::Null),
        ("b", Json::Bool(true)),
        ("f", Json::Number(JsonNumber::Float("1.5".into()))),
        ("l", Json::Array(vec![s("q"), Json::Array(vec![])])),
    ]);
    assert_eq!(v.copy(), v);
}
