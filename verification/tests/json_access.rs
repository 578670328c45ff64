use cli_test::json::{Json, JsonNumber};

fn obj(entries: Vec<(&str, Json)>) -> Json {
    Json::Object(entries.into_iter().map(|(k, v)| (k.to_string(), v)).collect())
}

#[test]
fn get_returns_first_member_of_that_name() {
    let v = obj(vec![("a", Json::Bool(true)), ("a", Json::Null)]);
    assert!(matches!(v.get("a"), Some(Json::Bool(true))));
    assert!(v.get("b").is_none());
    assert!(Json::Null.get("a").is_none());
}

#[test]
fn numbers_read_as_integers() {
    assert_eq!(Json::Number(JsonNumber::Unsigned(7)).as_u64(), Some(7));
    assert_eq!(Json::Number(JsonNumber::Signed(-3)).as_u64(), None);
    assert_eq!(Json::Number(JsonNumber::Signed(-3)).as_i64(), Some(-3));
    assert_eq!(Json::Number(JsonNumber::Unsigned(u64::MAX)).as_i64(), None);
    assert_eq!(Json::Number(JsonNumber::Float).as_u64(), None);
}
