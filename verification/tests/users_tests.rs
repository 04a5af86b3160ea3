use salmon::json::Json;
use salmon::vkapi::users::{parse_user_response, UserParseError};

fn obj(entries: Vec<(&str, Json)>) -> Json {
    Json::Obj(entries.into_iter().map(|(k, v)| (k.to_string(), v)).collect())
}

fn s(v: &str) -> Json {
    Json::Str(v.to_string())
}

#[test]
fn test_get_user() {
    let resp = obj(vec![(
        "response",
        Json::Arr(vec![obj(vec![
            ("id", Json::Int(1)),
            ("screen_name", s("michiganjfrog")),
            ("first_name", s("Hello")),
            ("last_name", s("My Baby")),
        ])]),
    )]);
    let user = parse_user_response(&resp).unwrap().unwrap();
    assert_eq!(user.screen_name, "michiganjfrog");
    assert_eq!(user.id, 1);
    assert_eq!(user.first_name, "Hello");
    assert_eq!(user.last_name, "My Baby");
    assert_eq!(user.describe(), "Hello My Baby (@michiganjfrog, id 1)");
}

#[test]
fn test_get_user_not_found() {
    // Looking up an unknown name ("wednesdayfrog") yields an empty array.
    let resp = obj(vec![("response", Json::Arr(vec![]))]);
    let user = parse_user_response(&resp).unwrap();
    assert!(user.is_none());
}

#[test]
fn malformed_single_user_is_an_error() {
    let resp = obj(vec![(
        "response",
        Json::Arr(vec![obj(vec![("id", Json::Int(1))])]),
    )]);
    assert_eq!(parse_user_response(&resp), Err(UserParseError));
}
