use salmon::img_match::ImageMatcher;
use salmon::text::{contains_str, i64_to_string, starts_with_str, str_eq, u64_to_string};
use salmon::vkapi::api_request;

#[test]
fn decimal_rendering() {
    assert_eq!(u64_to_string(0), "0");
    assert_eq!(u64_to_string(7), "7");
    assert_eq!(u64_to_string(105), "105");
    assert_eq!(u64_to_string(u64::MAX), "18446744073709551615");
    assert_eq!(i64_to_string(-1), "-1");
    assert_eq!(i64_to_string(42), "42");
    assert_eq!(i64_to_string(i64::MIN), "-9223372036854775808");
}

#[test]
fn string_search() {
    assert!(str_eq("abc", "abc"));
    assert!(!str_eq("abc", "abd"));
    assert!(contains_str("the 679823154 code", "679823154"));
    assert!(!contains_str("the 67982315 code", "679823154"));
    assert!(contains_str("any", ""));
    assert!(starts_with_str("vk.com/frog", "vk.com/"));
    assert!(!starts_with_str("ok vk.com/frog", "vk.com/"));
}

#[test]
fn matcher_distances() {
    let a = vec![0u8; 8];
    let mut b = a.clone();
    assert!(ImageMatcher::matches(&a, &b, 0));
    b[0] = 0x7f;  // 7 bits apart
    assert!(ImageMatcher::matches(&a, &b, 0));
    b[0] = 0xff;  // 8 bits apart
    assert!(!ImageMatcher::matches(&a, &b, 0));
    assert!(ImageMatcher::matches(&a, &b, 1));
    assert!(!ImageMatcher::matches(&a, &vec![0u8; 4], 0));
}

#[test]
fn api_request_appends_version_and_token() {
    let query = vec![("group_id", "1001")];
    let (url, q) = api_request("groups.getLongPollServer", &query, "token");
    assert_eq!(url, "https://api.vk.com/method/groups.getLongPollServer");
    assert_eq!(
        q,
        vec![
            ("group_id", "1001"),
            ("v", "5.103"),
            ("access_token", "token"),
        ]
    );
}

#[test]
fn json_error_includes_body_or_marker() {
    let msg = salmon::vkapi::json_error("https://x", b"{\"a\": 1}", "boom");
    assert_eq!(
        msg,
        "Unable to deserialize response: boom\nRequest URL: https://x\nResponse body: {\"a\": 1}"
    );
    let bad = salmon::vkapi::json_error("https://x", &[0xff, 0xfe], "boom");
    assert!(bad.ends_with("Response body: *invalid utf8*"));
}

#[test]
fn letter_bucket_prefixes_letter() {
    assert_eq!(salmon::behavior::stone::storage_letter_bucket("q"), "letter_q");
}

#[test]
fn outbound_message_holds_fields() {
    let out = salmon::vkapi::messages::VkOutboundMessage {
        peer_id: 7,
        text: "hi".to_string(),
        attachment: Some("photo1_2".to_string()),
    };
    assert_eq!(out.peer_id, 7);
    assert_eq!(out.attachment.as_deref(), Some("photo1_2"));
}
