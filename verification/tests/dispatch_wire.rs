use yapchat::dispatch::{dispatch_event, Command};
use yapchat::envelope::ClientEvent;
use yapchat::json::JsonValue;

fn obj(entries: Vec<(&str, JsonValue)>) -> JsonValue {
    JsonValue::Obj(entries.into_iter().map(|(k, v)| (k.to_string(), v)).collect())
}

fn s(v: &str) -> JsonValue {
    JsonValue::Str(v.to_string())
}

fn envelope(event: &str, data: JsonValue) -> ClientEvent {
    ClientEvent { event: event.to_string(), data }
}

#[test]
fn typing_start_dispatches_with_scope() {
    let ev = envelope(
        "typing_start",
        obj(vec![("is_group_chat", JsonValue::Bool(true)), ("group_code", s("ABC123"))]),
    );
    let cmd = dispatch_event(&ev, "{}");
    assert_eq!(
        cmd,
        Some(Command::TypingStart {
            is_group_chat: true,
            group_code: Some("ABC123".to_string()),
        })
    );
}

#[test]
fn typing_without_scope_flag_is_dropped() {
    let ev = envelope("typing_start", obj(vec![("group_code", s("ABC123"))]));
    assert_eq!(dispatch_event(&ev, "{}"), None);
}

#[test]
fn unknown_event_is_dropped() {
    let ev = envelope("launch_missiles", obj(vec![]));
    assert_eq!(dispatch_event(&ev, "{}"), None);
}

#[test]
fn join_chat_requires_the_full_profile() {
    let ev = envelope(
        "join_chat",
        obj(vec![
            ("user_id", s("u1")),
            ("username", s("A")),
            ("preference", s("male")),
            ("gender", s("male")),
            ("room_type", s("pairwise")),
        ]),
    );
    match dispatch_event(&ev, "{}") {
        Some(Command::JoinChat { profile }) => {
            assert_eq!(profile.user_id, "u1");
            assert_eq!(profile.group_code, None);
            assert_eq!(profile.group_join_method, None);
        }
        other => panic!("unexpected: {:?}", other),
    }
    let missing = envelope(
        "join_chat",
        obj(vec![("user_id", s("u1")), ("username", s("A"))]),
    );
    assert_eq!(dispatch_event(&missing, "{}"), None);
}

#[test]
fn join_chat_rejects_mistyped_optional_fields() {
    let ev = envelope(
        "join_chat",
        obj(vec![
            ("user_id", s("u1")),
            ("username", s("A")),
            ("preference", s("male")),
            ("gender", s("male")),
            ("room_type", s("group")),
            ("group_code", JsonValue::Int(7)),
        ]),
    );
    assert_eq!(dispatch_event(&ev, "{}"), None);
}

#[test]
fn send_message_merges_the_standalone_reply_hint() {
    let ev = envelope(
        "send_message",
        obj(vec![
            (
                "message",
                obj(vec![("encrypted", s("ct")), ("nonce", s("n1"))]),
            ),
            ("is_group_chat", JsonValue::Bool(false)),
            ("reply_to_id", JsonValue::Int(42)),
        ]),
    );
    match dispatch_event(&ev, "{}") {
        Some(Command::SendMessage { message, is_group_chat, group_code }) => {
            assert_eq!(message.encrypted, "ct");
            assert_eq!(message.nonce, "n1");
            assert_eq!(message.reply_to, Some(42));
            assert!(!is_group_chat);
            assert_eq!(group_code, None);
        }
        other => panic!("unexpected: {:?}", other),
    }
}

#[test]
fn send_message_keeps_the_inner_reply_hint() {
    let ev = envelope(
        "send_message",
        obj(vec![
            (
                "message",
                obj(vec![
                    ("encrypted", s("ct")),
                    ("nonce", s("n1")),
                    ("reply_to", JsonValue::Int(7)),
                ]),
            ),
            ("is_group_chat", JsonValue::Bool(false)),
            ("reply_to_id", JsonValue::Int(42)),
        ]),
    );
    match dispatch_event(&ev, "{}") {
        Some(Command::SendMessage { message, .. }) => assert_eq!(message.reply_to, Some(7)),
        other => panic!("unexpected: {:?}", other),
    }
}

#[test]
fn out_of_range_reply_hint_fails_the_decode() {
    let ev = envelope(
        "send_message",
        obj(vec![
            (
                "message",
                obj(vec![
                    ("encrypted", s("ct")),
                    ("nonce", s("n1")),
                    ("reply_to", JsonValue::Int(1_i64 << 40)),
                ]),
            ),
            ("is_group_chat", JsonValue::Bool(false)),
        ]),
    );
    assert_eq!(dispatch_event(&ev, "{}"), None);
}

#[test]
fn webrtc_offer_without_target_is_dropped() {
    let ev = envelope(
        "webrtc_offer",
        obj(vec![("offer", s("sdp")), ("is_group_chat", JsonValue::Bool(false))]),
    );
    assert_eq!(dispatch_event(&ev, "{\"offer\":\"sdp\"}"), None);
}

#[test]
fn webrtc_offer_carries_the_raw_payload() {
    let raw = "{\"target_id\":\"3\",\"offer\":\"sdp\"}";
    let ev = envelope("webrtc_offer", obj(vec![("target_id", s("3")), ("offer", s("sdp"))]));
    match dispatch_event(&ev, raw) {
        Some(Command::RelayWebRTCEvent {
            event_type,
            target_id,
            payload,
            is_group_chat,
            group_code,
        }) => {
            assert_eq!(event_type, "webrtc_offer");
            assert_eq!(target_id, "3");
            assert_eq!(payload, raw);
            assert!(!is_group_chat);
            assert_eq!(group_code, None);
        }
        other => panic!("unexpected: {:?}", other),
    }
}

#[test]
fn group_webrtc_without_code_is_dropped() {
    let ev = envelope(
        "webrtc_ice_candidate",
        obj(vec![("target_id", s("3")), ("is_group_chat", JsonValue::Bool(true))]),
    );
    assert_eq!(dispatch_event(&ev, "{}"), None);
    let with_code = envelope(
        "webrtc_ice_candidate",
        obj(vec![
            ("target_id", s("3")),
            ("is_group_chat", JsonValue::Bool(true)),
            ("group_code", s("ABC123")),
        ]),
    );
    match dispatch_event(&with_code, "{}") {
        Some(Command::RelayWebRTCEvent { is_group_chat, group_code, .. }) => {
            assert!(is_group_chat);
            assert_eq!(group_code, Some("ABC123".to_string()));
        }
        other => panic!("unexpected: {:?}", other),
    }
}

#[test]
fn disconnect_chat_needs_no_payload() {
    let ev = envelope("disconnect_chat", JsonValue::Null);
    assert_eq!(dispatch_event(&ev, "null"), Some(Command::DisconnectChat));
}

#[test]
fn delete_and_file_events_decode_their_fields() {
    let del = envelope(
        "delete_message",
        obj(vec![
            ("message_id", s("m-1")),
            ("is_group_chat", JsonValue::Bool(false)),
        ]),
    );
    assert_eq!(
        dispatch_event(&del, "{}"),
        Some(Command::DeleteMessage {
            message_id: "m-1".to_string(),
            is_group_chat: false,
            group_code: None,
        })
    );
    let file = envelope(
        "file_sending_start",
        obj(vec![
            ("file_id", s("f-1")),
            ("is_group_chat", JsonValue::Bool(true)),
            ("group_code", JsonValue::Null),
        ]),
    );
    assert_eq!(
        dispatch_event(&file, "{}"),
        Some(Command::FileSendingStart {
            file_id: "f-1".to_string(),
            is_group_chat: true,
            group_code: None,
        })
    );
}

#[test]
fn object_lookup_walks_entries_in_order() {
    let v = obj(vec![("a", JsonValue::Int(1)), ("b", JsonValue::Bool(true))]);
    assert_eq!(v.get("a"), Some(&JsonValue::Int(1)));
    assert_eq!(v.get("b"), Some(&JsonValue::Bool(true)));
    assert_eq!(v.get("c"), None);
    assert_eq!(JsonValue::Null.get("a"), None);
}
