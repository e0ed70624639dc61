use danmaku::message::{
    Metadata, MetaValue, NormalizedMessage, PaymentInfo, Platform, Priority,
};
use danmaku::youtube::{AuthorDetails, LiveChatMessageItem, LiveChatSnippet, SuperChatDetails};

#[test]
fn normalized_message_display() {
    let msg = NormalizedMessage::new_text(
        Platform::Twitch,
        "test".to_string(),
        Some("123".to_string()),
        "user".to_string(),
        Priority::Normal,
        "hello".to_string(),
        Metadata::new(),
    );
    assert!(msg.display_string().contains("hello"));
    assert_eq!(msg.display_string(), "[Twitch]#test user: hello");
}

#[test]
fn metadata_later_entries_shadow_earlier() {
    let mut meta = Metadata::new();
    meta.push("k".to_string(), MetaValue::Flag(false));
    meta.push("k".to_string(), MetaValue::Flag(true));
    match meta.get("k") {
        Some(MetaValue::Flag(b)) => assert!(*b),
        _ => panic!("expected the later entry"),
    }
    assert!(meta.get("missing").is_none());
}

#[test]
fn message_duplicate_keeps_content() {
    let mut meta = Metadata::new();
    meta.push(
        "payment".to_string(),
        MetaValue::Payment(PaymentInfo {
            amount_display: "$5.00".to_string(),
            amount_micros: Some(5_000_000),
            currency: Some("USD".to_string()),
        }),
    );
    let msg = NormalizedMessage::new_text(
        Platform::YouTube,
        "chat".to_string(),
        None,
        "viewer".to_string(),
        Priority::Paid,
        "hi there".to_string(),
        meta,
    );
    let copy = msg.duplicate();
    assert_eq!(copy.channel, "chat");
    assert_eq!(copy.username, "viewer");
    assert_eq!(copy.id, msg.id);
    assert_eq!(copy.timestamp_ms, msg.timestamp_ms);
    match copy.metadata.get("payment") {
        Some(MetaValue::Payment(p)) => {
            assert_eq!(p.amount_display, "$5.00");
            assert_eq!(p.amount_micros, Some(5_000_000));
        },
        _ => panic!("payment entry lost"),
    }
}

fn super_chat_item() -> LiveChatMessageItem {
    LiveChatMessageItem {
        id: "abc".to_string(),
        snippet: LiveChatSnippet {
            live_chat_id: "chat123".to_string(),
            // 2024-08-01T00:00:00Z in Unix milliseconds
            published_at_ms: 1_722_470_400_000,
            display_message: "Hello stream".to_string(),
            super_chat_details: Some(SuperChatDetails {
                amount_display_string: "$5.00".to_string(),
                amount_micros: Some(5_000_000),
                currency: Some("USD".to_string()),
            }),
        },
        author_details: AuthorDetails {
            channel_id: Some("user123".to_string()),
            display_name: "Viewer".to_string(),
            is_chat_moderator: Some(false),
            is_chat_owner: Some(false),
            is_chat_sponsor: Some(true),
        },
    }
}

#[test]
fn parse_super_chat() {
    let item = super_chat_item();
    let message = item.to_normalized();
    assert_eq!(message.content.as_text().unwrap(), "Hello stream");
    assert!(matches!(message.priority, Priority::Paid));
    assert_eq!(message.channel, "chat123");
    assert_eq!(message.username, "Viewer");
    assert_eq!(message.timestamp_ms, 1_722_470_400_000);
    match message.metadata.get("super_chat") {
        Some(MetaValue::Payment(p)) => assert_eq!(p.currency.as_deref(), Some("USD")),
        _ => panic!("expected the paid amount"),
    }
}

#[test]
fn moderator_outranks_paid_on_youtube() {
    let mut item = super_chat_item();
    item.author_details.is_chat_moderator = Some(true);
    assert!(matches!(item.to_normalized().priority, Priority::Moderator));
    let mut plain = super_chat_item();
    plain.snippet.super_chat_details = None;
    let normalized = plain.to_normalized();
    assert!(matches!(normalized.priority, Priority::Normal));
    assert!(matches!(normalized.metadata.get("super_chat"), Some(MetaValue::Absent)));
}
