use salmon::json::Json;
use salmon::vkapi::photos::{
    build_multipart_body, multipart_boundary, parse_saved_photo, parse_upload_response,
    parse_upload_url,
};

fn obj(entries: Vec<(&str, Json)>) -> Json {
    Json::Obj(entries.into_iter().map(|(k, v)| (k.to_string(), v)).collect())
}

fn s(v: &str) -> Json {
    Json::Str(v.to_string())
}

#[test]
fn test_message_upload() {
    // The three steps of an upload round trip, each on its own payload:
    // the upload server, the posted photo, and the saved media reference.
    let server_resp = obj(vec![("upload_url", s("https://upload_server/upload"))]);
    assert_eq!(
        parse_upload_url(&server_resp),
        Some("https://upload_server/upload".to_string())
    );
    let upload_resp = obj(vec![
        ("server", Json::Int(99)),
        ("photo", s("photo_json_blob")),
        ("hash", s("upload_hash")),
    ]);
    let upload = parse_upload_response(&upload_resp).unwrap();
    assert_eq!(upload.server, 99);
    assert_eq!(upload.photo, "photo_json_blob");
    assert_eq!(upload.hash, "upload_hash");
    let saved = Json::Arr(vec![obj(vec![
        ("id", Json::Int(7777777)),
        ("owner_id", Json::Int(101)),
    ])]);
    assert_eq!(parse_saved_photo(&saved), Some("photo101_7777777".to_string()));
}

#[test]
fn saved_photo_rejects_other_shapes() {
    assert_eq!(parse_saved_photo(&Json::Arr(vec![])), None);
    let no_owner = Json::Arr(vec![obj(vec![("id", Json::Int(1))])]);
    assert_eq!(parse_saved_photo(&no_owner), None);
}

#[test]
fn multipart_body_frames_the_file() {
    let body = build_multipart_body("photo", &vec![1u8, 2, 3], "jpg");
    let boundary = multipart_boundary();
    let mut expected: Vec<u8> = Vec::new();
    expected.extend_from_slice(b"--");
    expected.extend_from_slice(boundary.as_bytes());
    expected.extend_from_slice(
        b"\r\nContent-Disposition: form-data; name=\"photo\"; filename=\"file.jpg\"\r\n\r\n",
    );
    expected.extend_from_slice(&[1, 2, 3]);
    expected.extend_from_slice(b"\r\n--");
    expected.extend_from_slice(boundary.as_bytes());
    expected.extend_from_slice(b"--");
    assert_eq!(body, expected);
}
