use std::sync::Arc;

use danmaku::config::{FilterConfig, GatewayConfig, QueueConfig, TtsConfig};
use danmaku::fanout::{build_playback_packet, FanOut, PlaybackItem, RecvOutcome};
use danmaku::message::{Metadata, NormalizedMessage, Platform, Priority};
use danmaku::queue::EnqueueOutcome;
use danmaku::service::{DanmakuService, DispatchError, StartError};
use danmaku::synth::{EngineKind, TtsResponse, VoiceDescriptor, make_key, split_key};
use danmaku::wire::{
    cap_line, guest_nick, handshake_lines, socks5_connect_request, socks5_greeting,
    socks5_greeting_ok, socks5_reply_check, Socks5Addr,
};

fn gateway_config() -> GatewayConfig {
    GatewayConfig {
        queue: QueueConfig { capacity: 16, min_interval_ms: 0 },
        filter: FilterConfig { max_words: 10, max_chars: 200, banned_keywords: vec![], allow_links: true },
        tts: TtsConfig {
            endpoint: "http://127.0.0.1:1/api/tts".to_string(),
            voice_id: Some("walter".to_string()),
            timeout_secs: Some(5),
        },
    }
}

fn voices() -> Vec<VoiceDescriptor> {
    vec![
        VoiceDescriptor {
            id: "walter".to_string(),
            engine: EngineKind::F5,
            engine_label: "F5".to_string(),
            language: None,
            reference_text: None,
        },
        VoiceDescriptor {
            id: "iris".to_string(),
            engine: EngineKind::IndexTts,
            engine_label: "IndexTTS".to_string(),
            language: Some("en".to_string()),
            reference_text: None,
        },
    ]
}

fn service() -> DanmakuService {
    DanmakuService::new(voices(), "walter".to_string(), gateway_config()).unwrap()
}

fn make_message(channel: &str, text: &str) -> NormalizedMessage {
    NormalizedMessage::new_text(
        Platform::Twitch,
        channel.to_string(),
        Some("uid".to_string()),
        "user".to_string(),
        Priority::Normal,
        text.to_string(),
        Metadata::new(),
    )
}

fn item_for(channel: &str, text: &str) -> PlaybackItem {
    PlaybackItem {
        platform: Platform::Twitch,
        channel: channel.to_string(),
        username: "user".to_string(),
        display_text: text.to_string(),
        format: "audio/wav".to_string(),
        sample_rate: 24000,
        audio: Arc::new(vec![1, 2, 3]),
        color: None,
    }
}

#[test]
fn start_twice_fails_then_recovers_after_stop() {
    let mut svc = service();
    let chan = svc.start_twitch("https://www.twitch.tv/Test_Channel", None, None).unwrap();
    assert_eq!(chan, "test_channel");
    assert!(svc.is_channel_active("test_channel"));
    match svc.start_twitch("test_channel", None, None) {
        Err(StartError::AlreadyActive) => {},
        _ => panic!("second start must be refused as already active"),
    }
    let stopped = svc.stop_twitch("test_channel").unwrap();
    assert_eq!(stopped.as_deref(), Some("test_channel"));
    assert!(!svc.is_channel_active("test_channel"));
    let again = svc.start_twitch("test_channel", None, None).unwrap();
    assert_eq!(again, "test_channel");
    // stopping an idle channel is a successful no-op
    let mut idle = service();
    assert!(idle.stop_twitch("neverstarted").unwrap().is_none());
}

#[test]
fn start_validates_voice_and_engine() {
    let mut svc = service();
    match svc.start_twitch("chan", Some("nosuch".to_string()), None) {
        Err(StartError::UnknownVoice(v)) => assert_eq!(v, "nosuch"),
        _ => panic!("unknown voice must be refused"),
    }
    match svc.start_twitch("chan", Some("walter".to_string()), Some(EngineKind::IndexTts)) {
        Err(StartError::EngineMismatch { voice_id, voice_engine, requested }) => {
            assert_eq!(voice_id, "walter");
            assert_eq!(voice_engine, EngineKind::F5);
            assert_eq!(requested, EngineKind::IndexTts);
        },
        _ => panic!("engine mismatch must be refused"),
    }
    assert!(svc.start_twitch("chan", Some("iris".to_string()), Some(EngineKind::IndexTts)).is_ok());
    match svc.start_twitch("", None, None) {
        Err(StartError::InvalidChannel) => {},
        _ => panic!("empty input is no channel"),
    }
}

#[test]
fn stop_purges_only_that_channel() {
    let mut svc = service();
    svc.start_twitch("alpha", None, None).unwrap();
    svc.start_twitch("beta", None, None).unwrap();
    // place playback for both channels through the dispatcher
    let response = TtsResponse {
        request_id: 7,
        sample_rate: 24000,
        audio_base64: "UklGRg==".to_string(),
        waveform_len: 4,
        voice_id: "walter".to_string(),
        engine: EngineKind::F5,
        engine_label: "F5".to_string(),
    };
    for (chan, text) in [("alpha", "one"), ("beta", "two"), ("alpha", "three")] {
        assert!(matches!(svc.enqueue(&make_message(chan, text), 0), EnqueueOutcome::Accepted(_)));
        let filtered = svc.recv_filtered().unwrap();
        assert!(svc.prepare_dispatch(&filtered).is_some());
        assert_eq!(svc.complete_dispatch(&filtered, &response), Ok(true));
    }
    assert_eq!(svc.pending_playback().len(), 3);
    svc.stop_twitch("alpha").unwrap();
    let left = svc.pending_playback();
    assert_eq!(left.len(), 1);
    assert_eq!(left[0].channel, "beta");
    assert_eq!(left[0].display_text, "two");
}

#[test]
fn late_subscriber_sees_buffer_then_live_items() {
    let mut fan = FanOut::new(16, 16);
    fan.publish(item_for("c", "one"));
    fan.publish(item_for("c", "two"));
    fan.publish(item_for("c", "three"));
    let snapshot = fan.pending_playback();
    let mut sub = fan.subscribe();
    fan.publish(item_for("c", "four"));
    let mut seen: Vec<String> = snapshot.iter().map(|i| i.display_text.clone()).collect();
    loop {
        match sub.recv(&fan) {
            RecvOutcome::Item(item) => seen.push(item.display_text.clone()),
            RecvOutcome::Empty => break,
            RecvOutcome::Lagged(_) => panic!("no lag expected"),
        }
    }
    assert_eq!(seen, vec!["one", "two", "three", "four"]);
}

#[test]
fn slow_subscriber_observes_lag_and_resumes() {
    let mut fan = FanOut::new(8, 2);
    let mut sub = fan.subscribe();
    fan.publish(item_for("c", "a"));
    fan.publish(item_for("c", "b"));
    fan.publish(item_for("c", "c"));
    match sub.recv(&fan) {
        RecvOutcome::Lagged(skipped) => assert_eq!(skipped, 1),
        _ => panic!("expected lag"),
    }
    match sub.recv(&fan) {
        RecvOutcome::Item(item) => assert_eq!(item.display_text, "b"),
        _ => panic!("expected the oldest retained item"),
    }
}

#[test]
fn dispatch_decodes_audio_and_respects_liveness() {
    let mut svc = service();
    svc.start_twitch("chan", None, None).unwrap();
    assert!(matches!(
        svc.enqueue(&make_message("chan", "hello world"), 0),
        EnqueueOutcome::Accepted(_)
    ));
    let filtered = svc.recv_filtered().unwrap();
    let plan = svc.prepare_dispatch(&filtered).unwrap();
    assert_eq!(plan.voice_id, "walter");
    assert_eq!(plan.text, "user says: hello world");
    let request = DanmakuService::build_tts_request(&plan);
    assert_eq!(request.text, "user says: hello world");
    assert_eq!(request.nfe_step, Some(16));
    let response = TtsResponse {
        request_id: 1,
        sample_rate: 24000,
        audio_base64: "UklGRg==".to_string(),
        waveform_len: 4,
        voice_id: "walter".to_string(),
        engine: EngineKind::F5,
        engine_label: "F5".to_string(),
    };
    assert_eq!(svc.complete_dispatch(&filtered, &response), Ok(true));
    let pending = svc.pending_playback();
    assert_eq!(pending.len(), 1);
    // decoded base64: "UklGRg==" is the four bytes of the RIFF magic
    assert_eq!(pending[0].audio.as_slice(), b"RIFF");
    assert_eq!(pending[0].sample_rate, 24000);
    assert_eq!(pending[0].display_text, "hello world");

    let bad = TtsResponse { audio_base64: "!!!".to_string(), ..response.clone() };
    assert!(matches!(
        svc.enqueue(&make_message("chan", "again"), 1000),
        EnqueueOutcome::Accepted(_)
    ));
    let f2 = svc.recv_filtered().unwrap();
    assert_eq!(svc.complete_dispatch(&f2, &bad), Err(DispatchError::AudioDecode));

    // a message for a stopped channel is dropped at both checks
    svc.stop_twitch("chan").unwrap();
    assert!(svc.prepare_dispatch(&f2).is_none());
    assert_eq!(svc.complete_dispatch(&f2, &response), Ok(false));
}

#[test]
fn service_subscriber_receives_dispatched_item() {
    let mut svc = service();
    svc.start_twitch("chan", None, None).unwrap();
    assert!(matches!(
        svc.enqueue(&make_message("chan", "hi there"), 0),
        EnqueueOutcome::Accepted(_)
    ));
    let filtered = svc.recv_filtered().unwrap();
    let mut sub = svc.subscribe_playback();
    let response = TtsResponse {
        request_id: 2,
        sample_rate: 24000,
        audio_base64: "UklGRg==".to_string(),
        waveform_len: 4,
        voice_id: "walter".to_string(),
        engine: EngineKind::F5,
        engine_label: "F5".to_string(),
    };
    assert_eq!(svc.complete_dispatch(&filtered, &response), Ok(true));
    match sub.recv(svc.playback()) {
        RecvOutcome::Item(item) => assert_eq!(item.display_text, "hi there"),
        _ => panic!("the live subscriber must receive the published item"),
    }
    assert!(matches!(sub.recv(svc.playback()), RecvOutcome::Empty));
}

#[test]
fn playback_packet_frames_header_and_audio() {
    let mut item = item_for("chan", "say \"hi\"");
    item.color = Some("#00FF7F".to_string());
    let packet = build_playback_packet(&item).unwrap();
    let len = u32::from_le_bytes([packet[0], packet[1], packet[2], packet[3]]) as usize;
    let header = std::str::from_utf8(&packet[4..4 + len]).unwrap();
    assert_eq!(
        header,
        "{\"platform\":\"Twitch\",\"channel\":\"chan\",\"username\":\"user\",\"display_text\":\"say \\\"hi\\\"\",\"format\":\"audio/wav\",\"color\":\"#00FF7F\"}"
    );
    assert_eq!(&packet[4 + len..], &[1, 2, 3]);
    let plain = build_playback_packet(&item_for("c", "t")).unwrap();
    let plen = u32::from_le_bytes([plain[0], plain[1], plain[2], plain[3]]) as usize;
    let pheader = std::str::from_utf8(&plain[4..4 + plen]).unwrap();
    assert!(pheader.ends_with("\"color\":null}"));
}

#[test]
fn socks5_byte_protocol() {
    assert_eq!(socks5_greeting(), vec![5, 1, 0]);
    assert!(socks5_greeting_ok(5, 0));
    assert!(!socks5_greeting_ok(5, 255));
    let req = socks5_connect_request("irc.chat.twitch.tv", 6667).unwrap();
    assert_eq!(&req[0..4], &[5, 1, 0, 3]);
    assert_eq!(req[4] as usize, "irc.chat.twitch.tv".len());
    assert_eq!(&req[5..5 + 18], b"irc.chat.twitch.tv");
    assert_eq!(&req[23..], &[(6667u16 >> 8) as u8, (6667u16 & 0xff) as u8]);
    assert_eq!(socks5_reply_check(5, 0, 0, 1), Ok(Socks5Addr::V4));
    assert_eq!(socks5_reply_check(5, 0, 0, 3), Ok(Socks5Addr::Domain));
    assert!(socks5_reply_check(5, 2, 0, 1).is_err());
}

#[test]
fn handshake_lines_for_guest_and_account() {
    let nick = guest_nick();
    assert_eq!(nick.len(), 17);
    assert!(nick.starts_with("justinfan"));
    assert!(nick.chars().all(|c| c.is_ascii_lowercase() || c.is_ascii_digit()));
    let lines = handshake_lines(&None, &nick, "chan");
    assert_eq!(lines.len(), 5);
    assert_eq!(lines[0], "PASS SCHMOOPIIE\r\n");
    assert_eq!(lines[1], format!("NICK {nick}\r\n"));
    assert_eq!(lines[3], cap_line());
    assert_eq!(lines[4], "JOIN #chan\r\n");

    let auth = danmaku::twitch::TwitchAuth {
        username: "bot".to_string(),
        oauth_token: "tok".to_string(),
    };
    let lines = handshake_lines(&Some(auth), "ignored", "chan");
    assert_eq!(lines[0], "PASS oauth:tok\r\n");
    assert_eq!(lines[1], "NICK bot\r\n");
    assert_eq!(lines[2], "USER bot 8 * :bot\r\n");
}

#[test]
fn engine_kind_tags_and_keys() {
    assert_eq!(EngineKind::F5.as_str(), "f5");
    assert_eq!(EngineKind::parse("Index-TTS"), Some(EngineKind::IndexTts));
    assert_eq!(EngineKind::parse("SHIMMY"), Some(EngineKind::Shimmy));
    assert_eq!(EngineKind::parse("nope"), None);
    assert_eq!(make_key("walter", EngineKind::F5), "walter::f5");
    assert_eq!(split_key("walter::f5").as_deref(), Some("walter"));
    assert_eq!(split_key("nokey"), None);
}
