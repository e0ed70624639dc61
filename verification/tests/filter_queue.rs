use danmaku::config::{FilterConfig, QueueConfig};
use danmaku::filter::{MessageFilter, RateLimiter};
use danmaku::message::{Metadata, NormalizedMessage, Platform, Priority};
use danmaku::queue::{EnqueueOutcome, MessageQueue};
use danmaku::text::{preview_text, truncate_text};

fn make_message(text: &str) -> NormalizedMessage {
    NormalizedMessage::new_text(
        Platform::Twitch,
        "channel".to_string(),
        Some("u1".to_string()),
        "user".to_string(),
        Priority::Normal,
        text.to_string(),
        Metadata::new(),
    )
}

#[test]
fn filter_rejects_links_and_keywords() {
    let filter = MessageFilter::new(FilterConfig {
        max_words: 10,
        max_chars: 50,
        banned_keywords: vec!["spoiler".into()],
        allow_links: false,
    });
    assert!(filter.sanitize(&make_message("check http://example.com")).is_none());
    assert!(filter.sanitize(&make_message("this is a spoiler message")).is_none());
    assert!(filter.sanitize(&make_message("nice message")).is_some());
}

#[test]
fn filter_truncates_words() {
    let filter = MessageFilter::new(FilterConfig {
        max_words: 3,
        max_chars: 100,
        banned_keywords: vec![],
        allow_links: true,
    });
    let msg = filter.sanitize(&make_message("one two three four five")).unwrap();
    assert_eq!(msg.sanitized_text.split_whitespace().count(), 3);
}

#[test]
fn banned_keyword_rejected_in_any_case() {
    let filter = MessageFilter::new(FilterConfig {
        max_words: 10,
        max_chars: 50,
        banned_keywords: vec!["spoiler".into()],
        allow_links: true,
    });
    assert!(filter.sanitize(&make_message("a big SPOILER here")).is_none());
    assert!(filter.sanitize(&make_message("a big SpOiLeR here")).is_none());
    assert!(filter.sanitize(&make_message("harmless")).is_some());
}

#[test]
fn word_limit_is_exact_and_chars_bounded() {
    let filter = MessageFilter::new(FilterConfig {
        max_words: 2,
        max_chars: 50,
        banned_keywords: vec![],
        allow_links: true,
    });
    let out = filter.sanitize(&make_message("alpha   beta gamma delta")).unwrap();
    assert_eq!(out.sanitized_text, "alpha beta");
    assert_eq!(out.sanitized_text.split_whitespace().count(), 2);
    assert!(out.sanitized_text.chars().count() <= 50);

    let tight = MessageFilter::new(FilterConfig {
        max_words: 100,
        max_chars: 4,
        banned_keywords: vec![],
        allow_links: true,
    });
    let cut = tight.sanitize(&make_message("abcdef")).unwrap();
    assert_eq!(cut.sanitized_text, "abcd");
}

#[test]
fn newlines_collapse_and_inner_spacing_kept() {
    let filter = MessageFilter::new(FilterConfig::default());
    let out = filter.sanitize(&make_message("  hello\r\nworld  ")).unwrap();
    assert_eq!(out.sanitized_text, "hello  world");
}

#[test]
fn system_content_is_never_spoken() {
    let filter = MessageFilter::new(FilterConfig::default());
    let mut msg = make_message("ignored");
    msg.content = danmaku::message::MessageContent::System("joined".to_string());
    assert!(filter.sanitize(&msg).is_none());
}

#[test]
fn enqueue_and_receive() {
    let filter = MessageFilter::new(FilterConfig::default());
    let (mut queue, now) = (MessageQueue::new(filter, &QueueConfig::default()), 0u64);
    assert!(matches!(queue.enqueue(&make_message("hello world"), now), EnqueueOutcome::Accepted(_)));
    let msg = queue.recv().unwrap();
    assert_eq!(msg.sanitized_text, "hello world");
}

#[test]
fn empty_or_whitespace_message_is_refused() {
    let filter = MessageFilter::new(FilterConfig::default());
    let mut queue = MessageQueue::new(filter, &QueueConfig::default());
    assert_eq!(queue.enqueue(&make_message(""), 0), EnqueueOutcome::Rejected);
    assert_eq!(queue.enqueue(&make_message("   \r\n  "), 0), EnqueueOutcome::Rejected);
    assert_eq!(queue.len(), 0);
}

#[test]
fn full_queue_asks_for_another_offer_and_never_drops() {
    let filter = MessageFilter::new(FilterConfig::default());
    let mut queue = MessageQueue::new(filter, &QueueConfig { capacity: 1, min_interval_ms: 1 });
    assert!(matches!(queue.enqueue(&make_message("first"), 0), EnqueueOutcome::Accepted(_)));
    // at capacity: the producer is told to wait and offer again, the
    // message is not dropped
    let second = make_message("second");
    assert_eq!(queue.enqueue(&second, 0), EnqueueOutcome::Full);
    assert_eq!(queue.len(), 1);
    assert_eq!(queue.recv().unwrap().sanitized_text, "first");
    // once the consumer drained, the same offer goes through
    assert!(matches!(queue.enqueue(&second, 5), EnqueueOutcome::Accepted(_)));
    assert_eq!(queue.recv().unwrap().sanitized_text, "second");
    // only a shut receiving side refuses for good
    queue.close();
    assert_eq!(queue.enqueue(&make_message("third"), 10), EnqueueOutcome::Closed);
}

#[test]
fn throttle_spaces_emissions_by_the_interval() {
    let mut limiter = RateLimiter::new(100);
    let w1 = limiter.throttle_wait(0);
    let w2 = limiter.throttle_wait(0);
    let w3 = limiter.throttle_wait(0);
    assert_eq!(w1, 0);
    assert_eq!(w2, 100);
    assert_eq!(w3, 200);
    // Three back-to-back emissions are scheduled at least (3 - 1) * 100 ms
    // after the first.
    assert!(w3 >= 2 * 100);
    let w4 = limiter.throttle_wait(1000);
    assert_eq!(w4, 0);
}

#[test]
fn zero_interval_falls_back_to_one_second() {
    let mut limiter = RateLimiter::new(0);
    let _ = limiter.throttle_wait(0);
    assert_eq!(limiter.throttle_wait(0), 1000);
}

#[test]
fn preview_and_truncate_helpers() {
    assert_eq!(preview_text("  short  "), "short");
    let long: String = "x".repeat(130);
    let preview = preview_text(&long);
    assert_eq!(preview.chars().count(), 121);
    assert!(preview.ends_with('\u{2026}'));

    let (cut, truncated) = truncate_text("one two three", 2);
    assert_eq!(cut, "one two");
    assert!(truncated);
    let (kept, flag) = truncate_text("  one two  ", 5);
    assert_eq!(kept, "one two");
    assert!(!flag);
    let (empty, eflag) = truncate_text("   ", 5);
    assert_eq!(empty, "");
    assert!(!eflag);
}
