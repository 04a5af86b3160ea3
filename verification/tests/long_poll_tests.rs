use salmon::json::Json;
use salmon::vkapi::long_poll::{
    classify_poll_response, parse_long_poll_state, try_extract_attachment, try_parse_update,
    PollDecision, PollFault, VkLongPollState,
};
use salmon::vkapi::types::{VkMessage, VkPhoto};

fn obj(entries: Vec<(&str, Json)>) -> Json {
    Json::Obj(entries.into_iter().map(|(k, v)| (k.to_string(), v)).collect())
}

fn s(v: &str) -> Json {
    Json::Str(v.to_string())
}

fn photo_size(code: &str, width: i64, url: &str) -> Json {
    obj(vec![("type", s(code)), ("width", Json::Int(width)), ("url", s(url))])
}

fn photo_attachment(sizes: Vec<Json>) -> Json {
    obj(vec![("photo", obj(vec![("sizes", Json::Arr(sizes))]))])
}

fn doc_attachment(sizes: Vec<Json>) -> Json {
    obj(vec![("doc", obj(vec![("preview", photo_attachment(sizes))]))])
}

#[test]
fn test_poll_instantiation() {
    // The session-initiation payload carries the key, server and cursor.
    let init = obj(vec![
        ("key", s("long_poll_key")),
        ("server", s("https://long_poll_server")),
        ("ts", s("100")),
    ]);
    let state = parse_long_poll_state(&init).unwrap();
    assert_eq!(state.key, "long_poll_key");
    assert_eq!(state.server, "https://long_poll_server");
    assert_eq!(state.ts, "100");
}

#[test]
fn test_error_response() {
    // A small `failed` code asks for re-initiation, with no messages and no
    // error surfaced; the fresh session state then replaces the old one.
    let resp = obj(vec![("failed", Json::Int(2))]);
    assert_eq!(classify_poll_response(&resp), PollDecision::Recover);
    let fresh = obj(vec![
        ("key", s("new_long_poll_key")),
        ("server", s("https://new_long_poll_server")),
        ("ts", s("101")),
    ]);
    let state = parse_long_poll_state(&fresh).unwrap();
    assert_eq!(state.key, "new_long_poll_key");
    assert_eq!(state.server, "https://new_long_poll_server");
    assert_eq!(state.ts, "101");
}

#[test]
fn test_parse_reply_document() {
    let sizes = vec![
        photo_size("s", 75, "$small_url"),
        photo_size("m", 130, "$med_url"),
        photo_size("x", 604, "$big_url"),
    ];
    let reply = obj(vec![
        ("text", s("uh, docs aren't photos...")),
        ("from_id", Json::Int(1000)),
        ("attachments", Json::Arr(vec![doc_attachment(sizes)])),
    ]);
    let update = obj(vec![(
        "object",
        obj(vec![(
            "message",
            obj(vec![
                ("text", s("but they are!")),
                ("from_id", Json::Int(1010)),
                ("reply_message", reply),
            ]),
        )]),
    )]);
    let msg = try_parse_update(&update);
    assert_eq!(
        msg,
        Some(VkMessage {
            text: "but they are!".to_owned(),
            from_id: 1010,
            attachments: vec![],
            forwarded: vec![],
            reply_to: Some(Box::new(VkMessage {
                text: "uh, docs aren't photos...".into(),
                from_id: 1000,
                attachments: vec![VkPhoto("$med_url".into())],
                forwarded: vec![],
                reply_to: None
            }))
        })
    );
}

#[test]
fn test_parse_forwarded_attachment() {
    let sizes = vec![
        photo_size("s", 75, "$small_url"),
        photo_size("m", 130, "$med_url"),
        photo_size("x", 604, "$big_url"),
    ];
    let update = obj(vec![(
        "object",
        obj(vec![(
            "message",
            obj(vec![
                ("text", s("hey check this out")),
                ("from_id", Json::Int(1010)),
                (
                    "fwd_messages",
                    Json::Arr(vec![obj(vec![
                        ("text", s("forwarded text")),
                        ("from_id", Json::Int(1020)),
                        ("attachments", Json::Arr(vec![photo_attachment(sizes)])),
                    ])]),
                ),
            ]),
        )]),
    )]);
    let msg = try_parse_update(&update);
    assert_eq!(
        msg,
        Some(VkMessage {
            text: "hey check this out".into(),
            from_id: 1010,
            attachments: vec![],
            forwarded: vec![VkMessage {
                text: "forwarded text".into(),
                from_id: 1020,
                attachments: vec![VkPhoto("$med_url".into())],
                forwarded: vec![],
                reply_to: None
            }],
            reply_to: None
        })
    );
}

#[test]
fn attachment_with_only_unknown_size_codes_is_dropped() {
    // Codes outside {m,x,y,z,w} never default to any size.
    let sizes = vec![
        photo_size("s", 75, "$small_url"),
        photo_size("o", 130, "$other_url"),
        photo_size("p", 200, "$p_url"),
    ];
    assert_eq!(try_extract_attachment(&photo_attachment(sizes)), None);
}

#[test]
fn attachment_picks_smallest_admissible_width() {
    let sizes = vec![
        photo_size("x", 604, "$big_url"),
        photo_size("m", 130, "$med_url"),
        photo_size("y", 807, "$bigger_url"),
        photo_size("s", 10, "$tiny_inadmissible"),
    ];
    assert_eq!(
        try_extract_attachment(&photo_attachment(sizes)),
        Some(VkPhoto("$med_url".into()))
    );
}

#[test]
fn attachment_src_fallback() {
    let size = obj(vec![("type", s("m")), ("width", Json::Int(100)), ("src", s("$src_url"))]);
    assert_eq!(
        try_extract_attachment(&photo_attachment(vec![size])),
        Some(VkPhoto("$src_url".into()))
    );
}

#[test]
fn poll_missing_ts_is_fatal() {
    let resp = obj(vec![("updates", Json::Arr(vec![]))]);
    assert_eq!(
        classify_poll_response(&resp),
        PollDecision::Fatal(PollFault::MissingTs)
    );
}

#[test]
fn poll_missing_updates_is_fatal() {
    let resp = obj(vec![("ts", s("7"))]);
    assert_eq!(
        classify_poll_response(&resp),
        PollDecision::Fatal(PollFault::MissingUpdates)
    );
}

#[test]
fn poll_large_failure_code_is_fatal() {
    let resp = obj(vec![("failed", Json::Int(4))]);
    assert_eq!(
        classify_poll_response(&resp),
        PollDecision::Fatal(PollFault::ServerFailure(4))
    );
}

#[test]
fn poll_batch_replaces_cursor_and_keeps_order() {
    let upd = |id: i64| {
        obj(vec![(
            "object",
            obj(vec![(
                "message",
                obj(vec![("text", s("hello")), ("from_id", Json::Int(id))]),
            )]),
        )])
    };
    let malformed = obj(vec![("object", obj(vec![]))]);
    let resp = obj(vec![
        ("ts", s("101")),
        ("updates", Json::Arr(vec![upd(1), malformed, upd(2)])),
    ]);
    match classify_poll_response(&resp) {
        PollDecision::Batch { new_ts, messages } => {
            assert_eq!(new_ts, "101");
            let ids: Vec<i64> = messages.iter().map(|m| m.from_id).collect();
            assert_eq!(ids, vec![1, 2]);
        }
        other => panic!("expected a batch, got {:?}", other),
    }
}

#[test]
fn state_struct_holds_fields() {
    let st = VkLongPollState {
        key: "k".into(),
        server: "s".into(),
        ts: "1".into(),
    };
    assert_eq!(st.ts, "1");
}
