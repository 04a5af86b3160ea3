use salmon::vkapi::types::{VkMessage, VkPhoto};

fn empty_msg(from_id: i64) -> VkMessage {
    VkMessage {
        text: String::new(),
        from_id,
        attachments: vec![],
        forwarded: vec![],
        reply_to: None,
    }
}

#[test]
fn test_all_attachments() {
    let msg = VkMessage {
        text: String::new(),
        from_id: 0,
        attachments: vec![VkPhoto("$outer".into())],
        forwarded: vec![VkMessage {
            text: String::new(),
            from_id: 1,
            attachments: vec![VkPhoto("$inner".into())],
            forwarded: vec![],
            reply_to: Some(Box::new(VkMessage {
                text: String::new(),
                from_id: 2,
                attachments: vec![VkPhoto("$inner_reply".into())],
                forwarded: vec![],
                reply_to: None,
            })),
        }],
        reply_to: None,
    };
    assert_eq!(
        msg.all_attachments(),
        vec![
            VkPhoto("$outer".into()),
            VkPhoto("$inner".into()),
            VkPhoto("$inner_reply".into())
        ]
    )
}

#[test]
fn all_attachments_orders_own_then_forwarded_then_reply() {
    // Attachments at all three levels at once: own, forwarded (recursively,
    // depth first), then the reply chain.
    let mut fwd_a = empty_msg(10);
    fwd_a.attachments = vec![VkPhoto("fwd_a".into())];
    let mut fwd_a_child = empty_msg(11);
    fwd_a_child.attachments = vec![VkPhoto("fwd_a_child".into())];
    fwd_a.forwarded = vec![fwd_a_child];
    let mut fwd_b = empty_msg(12);
    fwd_b.attachments = vec![VkPhoto("fwd_b".into())];
    let mut reply = empty_msg(13);
    reply.attachments = vec![VkPhoto("reply".into())];
    let mut reply_reply = empty_msg(14);
    reply_reply.attachments = vec![VkPhoto("reply_reply".into())];
    reply.reply_to = Some(Box::new(reply_reply));
    let msg = VkMessage {
        text: "hi".to_string(),
        from_id: 1,
        attachments: vec![VkPhoto("own1".into()), VkPhoto("own2".into())],
        forwarded: vec![fwd_a, fwd_b],
        reply_to: Some(Box::new(reply)),
    };
    let urls: Vec<String> = msg.all_attachments().into_iter().map(|p| p.0).collect();
    assert_eq!(
        urls,
        vec![
            "own1".to_string(),
            "own2".to_string(),
            "fwd_a".to_string(),
            "fwd_a_child".to_string(),
            "fwd_b".to_string(),
            "reply".to_string(),
            "reply_reply".to_string(),
        ]
    );
}
