use danmaku::message::{MessageContent, MetaValue, Priority};
use danmaku::twitch::{
    build_twitch_auth, parse_clearmsg, parse_irc_message, parse_ping, parse_privmsg,
    parse_twitch_channel, normalize_twitch_token,
};
use danmaku::config::TwitchConfig;
use danmaku::wire::{classify_line, parse_proxy_addr, pong_line, LineAction};

#[test]
fn parse_privmsg_basic() {
    let line = "@badge-info=;badges=moderator/1;color=#00FF7F;display-name=ModUser;emotes=;flags=;id=abcd-1234-ef;mod=1;room-id=123;subscriber=0;tmi-sent-ts=1660000000000;turbo=0;user-id=42;user-type=mod :moduser!moduser@moduser.tmi.twitch.tv PRIVMSG #channel :Hello World";
    let msg = parse_privmsg(line).unwrap().unwrap();
    assert_eq!(msg.channel, "channel");
    assert_eq!(msg.username, "ModUser");
    assert_eq!(msg.user_id.clone().unwrap(), "42");
    assert_eq!(msg.message, "Hello World");
    let normalized = msg.to_normalized();
    assert_eq!(normalized.content.as_text().unwrap(), "Hello World");
    assert!(matches!(normalized.priority, Priority::Moderator));
    let color = match normalized.metadata.get("color") {
        Some(MetaValue::Text(c)) => c.clone(),
        _ => panic!("color entry missing"),
    };
    assert_eq!(color, "#00FF7F");
}

#[test]
fn parse_ping_token() {
    assert_eq!(parse_ping("PING :tmi.twitch.tv"), Some("tmi.twitch.tv".into()));
}

#[test]
fn privmsg_with_badge_parses_to_moderator() {
    let line = "@badges=moderator/1;display-name=Mod :mod!mod@host PRIVMSG #chan :hello";
    let msg = parse_privmsg(line).unwrap().unwrap();
    assert_eq!(msg.channel, "chan");
    assert_eq!(msg.username, "Mod");
    assert_eq!(msg.message, "hello");
    let normalized = msg.to_normalized();
    assert!(matches!(normalized.priority, Priority::Moderator));
    assert_eq!(normalized.channel, "chan");
    assert_eq!(normalized.username, "Mod");
    match &normalized.content {
        MessageContent::Text(t) => assert_eq!(t, "hello"),
        _ => panic!("expected text content"),
    }
}

#[test]
fn ping_line_answers_with_pong_token() {
    match classify_line("PING :serverhost") {
        LineAction::Pong(token) => {
            assert_eq!(token, "serverhost");
            assert_eq!(pong_line(&token), "PONG :serverhost\r\n");
        },
        _ => panic!("expected a keepalive"),
    }
}

#[test]
fn irc_message_grammar() {
    let m = parse_irc_message("@a=1;b= :nick!user@host COMMAND one :two three").unwrap();
    assert_eq!(m.tags, vec![("a".to_string(), "1".to_string()), ("b".to_string(), "".to_string())]);
    assert_eq!(m.prefix.as_deref(), Some("nick!user@host"));
    assert_eq!(m.command, "COMMAND");
    assert_eq!(m.params, vec!["one".to_string(), "two three".to_string()]);

    let plain = parse_irc_message("PING :token").unwrap();
    assert!(plain.tags.is_empty());
    assert!(plain.prefix.is_none());
    assert_eq!(plain.command, "PING");
    assert_eq!(plain.params, vec!["token".to_string()]);

    assert!(parse_irc_message("@only-tags-without-space").is_err());
}

#[test]
fn clearmsg_yields_channel_and_target() {
    let out = parse_clearmsg("@login=bad_user :tmi CLEARMSG #chan :spam text").unwrap().unwrap();
    assert_eq!(out.0, "chan");
    assert_eq!(out.1, "spam text");
    assert!(parse_clearmsg("PING :x").unwrap().is_none());
}

#[test]
fn channel_name_from_url_or_name() {
    assert_eq!(parse_twitch_channel("  Example "), Some("example".to_string()));
    assert_eq!(
        parse_twitch_channel("https://www.twitch.tv/Test_Channel?ref=x"),
        Some("test_channel".to_string())
    );
    assert_eq!(parse_twitch_channel("twitch.tv/abc/videos"), Some("abc".to_string()));
    assert_eq!(parse_twitch_channel("   "), None);
    assert_eq!(parse_twitch_channel("twitch.tv/"), None);
}

#[test]
fn token_normalisation_accepts_pasted_forms() {
    assert_eq!(normalize_twitch_token(" oauth:abc123 "), Some("abc123".to_string()));
    assert_eq!(normalize_twitch_token("Bearer abc"), Some("abc".to_string()));
    assert_eq!(
        normalize_twitch_token("#access_token=zzz&scope=chat"),
        Some("zzz".to_string())
    );
    assert_eq!(normalize_twitch_token("   "), None);
}

#[test]
fn auth_lowers_user_and_normalises_token() {
    let cfg = TwitchConfig {
        enabled: true,
        client_id: None,
        client_secret: None,
        bot_username: Some("BotName".to_string()),
        oauth_token: Some("oauth:Secret1".to_string()),
        channels: vec![],
    };
    let auth = build_twitch_auth(&cfg).unwrap();
    assert_eq!(auth.username, "botname");
    assert_eq!(auth.oauth_token, "Secret1");
    let empty = TwitchConfig::default();
    assert!(build_twitch_auth(&empty).is_none());
}

#[test]
fn emotes_and_reply_metadata() {
    let line = "@badges=;emotes=25:0-4,6-10/1902:12-16;reply-parent-msg-id=xyz;reply-parent-display-name=Other :u!u@h PRIVMSG #c :Kappa Kappa Keepo";
    let msg = parse_privmsg(line).unwrap().unwrap();
    let normalized = msg.to_normalized();
    match normalized.metadata.get("emotes") {
        Some(MetaValue::Emotes(es)) => {
            assert_eq!(es.len(), 2);
            assert_eq!(es[0].id, "25");
            assert_eq!(es[0].positions.len(), 2);
            assert_eq!(es[0].positions[0].start, 0);
            assert_eq!(es[0].positions[0].end, 4);
            assert_eq!(es[1].id, "1902");
        },
        _ => panic!("expected emotes entry"),
    }
    match normalized.metadata.get("reply") {
        Some(MetaValue::Reply(info)) => {
            assert_eq!(info.parent_msg_id, "xyz");
            assert_eq!(info.parent_display_name.as_deref(), Some("Other"));
            assert!(info.parent_message.is_none());
        },
        _ => panic!("expected reply entry"),
    }
    match normalized.metadata.get("bits") {
        None => {},
        Some(_) => panic!("no bits expected"),
    }
}

#[test]
fn bits_without_badges_is_paid() {
    let line = "@bits=120;display-name=Cheerer :c!c@h PRIVMSG #chan :cheer120 hi";
    let msg = parse_privmsg(line).unwrap().unwrap();
    assert_eq!(msg.bits, Some(120));
    let normalized = msg.to_normalized();
    assert!(matches!(normalized.priority, Priority::Paid));
}

#[test]
fn proxy_addr_forms() {
    assert_eq!(
        parse_proxy_addr("socks5://127.0.0.1:1080"),
        Some(("127.0.0.1".to_string(), 1080))
    );
    assert_eq!(parse_proxy_addr("host:99"), Some(("host".to_string(), 99)));
    assert_eq!(parse_proxy_addr("http://h:1"), None);
    assert_eq!(parse_proxy_addr("hostonly"), None);
    assert_eq!(parse_proxy_addr("h:70000"), None);
}
