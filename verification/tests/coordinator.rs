use yapchat::envelope::{Delivery, ServerEvent, UserProfile};
use yapchat::server::ChatServer;

fn profile(
    user_id: &str,
    username: &str,
    preference: &str,
    gender: &str,
    room_type: &str,
) -> UserProfile {
    UserProfile {
        user_id: user_id.to_string(),
        username: username.to_string(),
        preference: preference.to_string(),
        gender: gender.to_string(),
        room_type: room_type.to_string(),
        group_code: None,
        group_join_method: None,
    }
}

#[test]
fn connect_returns_distinct_ids() {
    let mut srv = ChatServer::new();
    let a = srv.connect();
    let b = srv.connect();
    let c = srv.connect();
    assert_ne!(a, b);
    assert_ne!(a, c);
    assert_ne!(b, c);
    assert!(srv.has_session(a));
    assert!(srv.has_session(b));
    assert!(srv.has_session(c));
}

#[test]
fn ids_stay_unique_across_disconnects() {
    let mut srv = ChatServer::new();
    let a = srv.connect();
    let _ = srv.disconnect(a);
    let b = srv.connect();
    assert_ne!(a, b);
    assert!(!srv.has_session(a));
    assert!(srv.has_session(b));
}

#[test]
fn lone_pairwise_joiner_waits_without_partner() {
    let mut srv = ChatServer::new();
    let a = srv.connect();
    let out = srv.join_chat(a, profile("aaaaa", "A", "male", "male", "pairwise"));
    assert_eq!(out, vec![Delivery { to: a, event: ServerEvent::WaitingForMatch }]);
    assert!(srv.is_waiting(a));
    assert_eq!(srv.partner_of(a), None);
}

#[test]
fn same_preference_compatible_gender_matches_mutually() {
    let mut srv = ChatServer::new();
    let a = srv.connect();
    let b = srv.connect();
    let _ = srv.join_chat(a, profile("aaaaa", "A", "male", "male", "pairwise"));
    let out = srv.join_chat(b, profile("bbbbb", "B", "male", "female", "pairwise"));
    assert_eq!(
        out,
        vec![
            Delivery { to: b, event: ServerEvent::ChatStarted { group_code: None } },
            Delivery { to: a, event: ServerEvent::ChatStarted { group_code: None } },
        ]
    );
    assert_eq!(srv.partner_of(a), Some(b));
    assert_eq!(srv.partner_of(b), Some(a));
    assert!(!srv.is_waiting(a));
    assert!(!srv.is_waiting(b));
}

#[test]
fn opposite_preferences_sit_in_separate_buckets() {
    // The matchmaking rule pools candidates under the joiner's own
    // preference key, so these two profiles never see each other.
    let mut srv = ChatServer::new();
    let a = srv.connect();
    let b = srv.connect();
    let out_a = srv.join_chat(a, profile("aaaaa", "A", "male", "female", "pairwise"));
    let out_b = srv.join_chat(b, profile("bbbbb", "B", "female", "male", "pairwise"));
    assert_eq!(out_a, vec![Delivery { to: a, event: ServerEvent::WaitingForMatch }]);
    assert_eq!(out_b, vec![Delivery { to: b, event: ServerEvent::WaitingForMatch }]);
    assert!(srv.is_waiting(a));
    assert!(srv.is_waiting(b));
    assert_eq!(srv.partner_of(a), None);
    assert_eq!(srv.partner_of(b), None);
}

#[test]
fn gender_mismatch_keeps_both_waiting() {
    let mut srv = ChatServer::new();
    let a = srv.connect();
    let b = srv.connect();
    let _ = srv.join_chat(a, profile("aaaaa", "A", "male", "female", "pairwise"));
    let out = srv.join_chat(b, profile("bbbbb", "B", "male", "female", "pairwise"));
    assert_eq!(out, vec![Delivery { to: b, event: ServerEvent::WaitingForMatch }]);
    assert!(srv.is_waiting(a));
    assert!(srv.is_waiting(b));
}

#[test]
fn message_reaches_only_the_partner() {
    let mut srv = ChatServer::new();
    let a = srv.connect();
    let b = srv.connect();
    let _ = srv.join_chat(a, profile("aaaaa", "A", "male", "male", "pairwise"));
    let _ = srv.join_chat(b, profile("bbbbb", "B", "male", "female", "pairwise"));
    let msg = yapchat::envelope::EncryptedMessage {
        encrypted: "ct".to_string(),
        nonce: "n1".to_string(),
        reply_to: None,
    };
    let out = srv.send_message(a, msg, false, None);
    assert_eq!(
        out,
        vec![Delivery {
            to: b,
            event: ServerEvent::ReceiveMessage {
                message: yapchat::envelope::EncryptedMessage {
                    encrypted: "ct".to_string(),
                    nonce: "n1".to_string(),
                    reply_to: None,
                },
                sender: "A".to_string(),
                reply_to: None,
            },
        }]
    );
}

#[test]
fn partner_disconnect_notifies_and_unbinds() {
    let mut srv = ChatServer::new();
    let a = srv.connect();
    let b = srv.connect();
    let _ = srv.join_chat(a, profile("aaaaa", "A", "male", "male", "pairwise"));
    let _ = srv.join_chat(b, profile("bbbbb", "B", "male", "female", "pairwise"));
    let out = srv.disconnect(a);
    assert_eq!(out, vec![Delivery { to: b, event: ServerEvent::PartnerDisconnected }]);
    assert_eq!(srv.partner_of(b), None);
    assert!(!srv.has_session(a));
}

#[test]
fn disconnect_of_unknown_connection_is_a_noop() {
    let mut srv = ChatServer::new();
    let a = srv.connect();
    let out = srv.disconnect(a + 40);
    assert!(out.is_empty());
    assert!(srv.has_session(a));
}

#[test]
fn repeated_disconnect_is_a_noop() {
    let mut srv = ChatServer::new();
    let a = srv.connect();
    let _ = srv.join_chat(a, profile("aaaaa", "A", "male", "male", "pairwise"));
    let first = srv.disconnect(a);
    assert!(first.is_empty());
    let second = srv.disconnect(a);
    assert!(second.is_empty());
    assert!(!srv.is_waiting(a));
}

#[test]
fn disconnect_chat_keeps_the_session_registered() {
    let mut srv = ChatServer::new();
    let a = srv.connect();
    let _ = srv.join_chat(a, profile("aaaaa", "A", "male", "male", "pairwise"));
    let out = srv.disconnect_chat(a);
    assert!(out.is_empty());
    assert!(srv.has_session(a));
    assert!(!srv.is_waiting(a));
}

#[test]
fn typing_signals_reach_the_partner_without_a_name() {
    let mut srv = ChatServer::new();
    let a = srv.connect();
    let b = srv.connect();
    let _ = srv.join_chat(a, profile("aaaaa", "A", "male", "male", "pairwise"));
    let _ = srv.join_chat(b, profile("bbbbb", "B", "male", "female", "pairwise"));
    let started = srv.typing_start(b, false, None);
    assert_eq!(
        started,
        vec![Delivery { to: a, event: ServerEvent::TypingStarted { username: None } }]
    );
    let stopped = srv.typing_stop(b, false, None);
    assert_eq!(
        stopped,
        vec![Delivery { to: a, event: ServerEvent::TypingStopped { username: None } }]
    );
}

#[test]
fn delete_message_echoes_back_to_the_pairwise_sender() {
    let mut srv = ChatServer::new();
    let a = srv.connect();
    let b = srv.connect();
    let _ = srv.join_chat(a, profile("aaaaa", "A", "male", "male", "pairwise"));
    let _ = srv.join_chat(b, profile("bbbbb", "B", "male", "female", "pairwise"));
    let out = srv.delete_message(a, "m-1".to_string(), false, None);
    assert_eq!(
        out,
        vec![
            Delivery {
                to: b,
                event: ServerEvent::MessageDeleted { message_id: "m-1".to_string() },
            },
            Delivery {
                to: a,
                event: ServerEvent::MessageDeleted { message_id: "m-1".to_string() },
            },
        ]
    );
}

#[test]
fn relay_to_unknown_target_delivers_nothing() {
    let mut srv = ChatServer::new();
    let a = srv.connect();
    let _ = srv.join_chat(a, profile("aaaaa", "A", "male", "male", "pairwise"));
    let out = srv.relay_webrtc_event(
        a,
        "webrtc_offer".to_string(),
        "12345".to_string(),
        "{}".to_string(),
        false,
        None,
    );
    assert!(out.is_empty());
}

#[test]
fn relay_reaches_any_live_connection_by_target_id() {
    let mut srv = ChatServer::new();
    let a = srv.connect();
    let c = srv.connect();
    let _ = srv.join_chat(a, profile("aaaaa", "A", "male", "male", "pairwise"));
    let out = srv.relay_webrtc_event(
        a,
        "webrtc_offer".to_string(),
        format!("{}", c),
        "{\"sdp\":\"x\"}".to_string(),
        false,
        None,
    );
    assert_eq!(
        out,
        vec![Delivery {
            to: c,
            event: ServerEvent::WebRtc {
                event_type: "webrtc_offer".to_string(),
                payload: "{\"sdp\":\"x\"}".to_string(),
            },
        }]
    );
}

#[test]
fn relay_from_unknown_sender_delivers_nothing() {
    let mut srv = ChatServer::new();
    let a = srv.connect();
    let out = srv.relay_webrtc_event(
        a,
        "webrtc_offer".to_string(),
        format!("{}", a),
        "{}".to_string(),
        false,
        None,
    );
    assert!(out.is_empty());
}

#[test]
fn female_preference_matches_a_female_waiter() {
    let mut srv = ChatServer::new();
    let a = srv.connect();
    let b = srv.connect();
    let _ = srv.join_chat(a, profile("aaaaa", "A", "female", "female", "pairwise"));
    let out = srv.join_chat(b, profile("bbbbb", "B", "female", "male", "pairwise"));
    assert_eq!(out.len(), 2);
    assert_eq!(srv.partner_of(a), Some(b));
    assert_eq!(srv.partner_of(b), Some(a));
}

#[test]
fn rejoining_frees_the_previous_partner_first() {
    let mut srv = ChatServer::new();
    let a = srv.connect();
    let b = srv.connect();
    let _ = srv.join_chat(a, profile("aaaaa", "A", "male", "male", "pairwise"));
    let _ = srv.join_chat(b, profile("bbbbb", "B", "male", "female", "pairwise"));
    assert_eq!(srv.partner_of(b), Some(a));
    // A joins again; its old pairing is torn down like a chat disconnect
    let out = srv.join_chat(a, profile("aaaaa", "A", "female", "female", "pairwise"));
    assert_eq!(
        out,
        vec![
            Delivery { to: b, event: ServerEvent::PartnerDisconnected },
            Delivery { to: a, event: ServerEvent::WaitingForMatch },
        ]
    );
    assert_eq!(srv.partner_of(b), None);
    assert_eq!(srv.partner_of(a), None);
    assert!(srv.is_waiting(a));
}

#[test]
fn empty_username_is_defaulted_from_the_user_id() {
    let mut srv = ChatServer::new();
    let a = srv.connect();
    let b = srv.connect();
    let _ = srv.join_chat(a, profile("abcdefgh", "", "male", "male", "pairwise"));
    let _ = srv.join_chat(b, profile("bbbbb", "B", "male", "female", "pairwise"));
    let msg = yapchat::envelope::EncryptedMessage {
        encrypted: "c".to_string(),
        nonce: "n".to_string(),
        reply_to: Some(3),
    };
    let out = srv.send_message(a, msg, false, None);
    match &out[0].event {
        ServerEvent::ReceiveMessage { sender, reply_to, .. } => {
            assert_eq!(sender, "User-abcde");
            assert_eq!(*reply_to, Some(3));
        }
        other => panic!("unexpected event: {:?}", other),
    }
}
