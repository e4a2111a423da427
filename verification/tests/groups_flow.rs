use yapchat::envelope::{Delivery, ServerEvent, UserProfile};
use yapchat::server::ChatServer;

fn group_profile(user_id: &str, username: &str, method: &str, code: Option<String>) -> UserProfile {
    UserProfile {
        user_id: user_id.to_string(),
        username: username.to_string(),
        preference: "any".to_string(),
        gender: "other".to_string(),
        room_type: "group".to_string(),
        group_code: code,
        group_join_method: Some(method.to_string()),
    }
}

fn created_code(deliveries: &[Delivery]) -> String {
    match &deliveries[0].event {
        ServerEvent::ChatStarted { group_code: Some(code) } => code.clone(),
        other => panic!("expected chat_started with a code, got {:?}", other),
    }
}

#[test]
fn create_yields_six_char_code_and_singleton_roster() {
    let mut srv = ChatServer::new();
    let c = srv.connect();
    let out = srv.join_chat(c, group_profile("ccccc", "C", "create", None));
    assert_eq!(out.len(), 2);
    let code = created_code(&out);
    assert_eq!(code.chars().count(), 6);
    assert!(code.chars().all(|ch| ch.is_ascii_alphanumeric()));
    assert_eq!(
        out[1],
        Delivery {
            to: c,
            event: ServerEvent::GroupMembersUpdate { usernames: vec!["C".to_string()] },
        }
    );
    assert_eq!(srv.group_of(c), Some(code));
}

#[test]
fn join_by_code_updates_everyone_and_confirms_the_joiner() {
    let mut srv = ChatServer::new();
    let c = srv.connect();
    let d = srv.connect();
    let created = srv.join_chat(c, group_profile("ccccc", "C", "create", None));
    let code = created_code(&created);
    let out = srv.join_chat(d, group_profile("ddddd", "D", "join", Some(code.clone())));
    let roster = vec!["C".to_string(), "D".to_string()];
    assert_eq!(
        out,
        vec![
            Delivery {
                to: c,
                event: ServerEvent::GroupMembersUpdate { usernames: roster.clone() },
            },
            Delivery {
                to: c,
                event: ServerEvent::UserJoinedGroup { username: "D".to_string() },
            },
            Delivery {
                to: d,
                event: ServerEvent::GroupMembersUpdate { usernames: roster.clone() },
            },
            Delivery {
                to: d,
                event: ServerEvent::ChatStarted { group_code: Some(code.clone()) },
            },
        ]
    );
    assert_eq!(srv.group_of(d), Some(code));
}

#[test]
fn join_with_unknown_code_answers_group_not_found() {
    let mut srv = ChatServer::new();
    let d = srv.connect();
    let out = srv.join_chat(d, group_profile("ddddd", "D", "join", Some("zzzzzz".to_string())));
    assert_eq!(out, vec![Delivery { to: d, event: ServerEvent::GroupNotFound }]);
    assert_eq!(srv.group_of(d), None);
}

#[test]
fn random_join_with_no_groups_creates_one() {
    let mut srv = ChatServer::new();
    let c = srv.connect();
    let out = srv.join_chat(c, group_profile("ccccc", "C", "random", None));
    assert_eq!(out.len(), 2);
    let code = created_code(&out);
    assert_eq!(srv.group_of(c), Some(code));
}

#[test]
fn random_join_lands_in_the_existing_group() {
    let mut srv = ChatServer::new();
    let c = srv.connect();
    let d = srv.connect();
    let created = srv.join_chat(c, group_profile("ccccc", "C", "create", None));
    let code = created_code(&created);
    let _ = srv.join_chat(d, group_profile("ddddd", "D", "random", None));
    assert_eq!(srv.group_of(d), Some(code));
}

#[test]
fn leaving_member_triggers_user_left_and_fresh_roster() {
    let mut srv = ChatServer::new();
    let c = srv.connect();
    let d = srv.connect();
    let created = srv.join_chat(c, group_profile("ccccc", "C", "create", None));
    let code = created_code(&created);
    let _ = srv.join_chat(d, group_profile("ddddd", "D", "join", Some(code.clone())));
    let out = srv.disconnect(d);
    assert_eq!(
        out,
        vec![
            Delivery {
                to: c,
                event: ServerEvent::UserLeftGroup { username: "D".to_string() },
            },
            Delivery {
                to: c,
                event: ServerEvent::GroupMembersUpdate {
                    usernames: vec!["C".to_string()],
                },
            },
        ]
    );
    assert_eq!(srv.group_of(c), Some(code));
}

#[test]
fn last_member_leaving_dissolves_the_group_silently() {
    let mut srv = ChatServer::new();
    let c = srv.connect();
    let d = srv.connect();
    let created = srv.join_chat(c, group_profile("ccccc", "C", "create", None));
    let code = created_code(&created);
    let out = srv.disconnect(c);
    assert!(out.is_empty());
    // the code no longer resolves for a later joiner
    let joined = srv.join_chat(d, group_profile("ddddd", "D", "join", Some(code)));
    assert_eq!(joined, vec![Delivery { to: d, event: ServerEvent::GroupNotFound }]);
}

#[test]
fn group_message_reaches_everyone_but_the_sender() {
    let mut srv = ChatServer::new();
    let c = srv.connect();
    let d = srv.connect();
    let e = srv.connect();
    let created = srv.join_chat(c, group_profile("ccccc", "C", "create", None));
    let code = created_code(&created);
    let _ = srv.join_chat(d, group_profile("ddddd", "D", "join", Some(code.clone())));
    let _ = srv.join_chat(e, group_profile("eeeee", "E", "join", Some(code.clone())));
    let msg = yapchat::envelope::EncryptedMessage {
        encrypted: "ct".to_string(),
        nonce: "n".to_string(),
        reply_to: None,
    };
    let out = srv.send_message(d, msg, true, None);
    let tos: Vec<u64> = out.iter().map(|x| x.to).collect();
    assert_eq!(tos, vec![c, e]);
    for x in &out {
        match &x.event {
            ServerEvent::ReceiveMessage { sender, .. } => assert_eq!(sender, "D"),
            other => panic!("unexpected event: {:?}", other),
        }
    }
}

#[test]
fn group_delete_message_includes_the_sender_once() {
    let mut srv = ChatServer::new();
    let c = srv.connect();
    let d = srv.connect();
    let created = srv.join_chat(c, group_profile("ccccc", "C", "create", None));
    let code = created_code(&created);
    let _ = srv.join_chat(d, group_profile("ddddd", "D", "join", Some(code.clone())));
    let out = srv.delete_message(d, "m-9".to_string(), true, None);
    let tos: Vec<u64> = out.iter().map(|x| x.to).collect();
    assert_eq!(tos, vec![c, d]);
}

#[test]
fn group_typing_carries_the_username() {
    let mut srv = ChatServer::new();
    let c = srv.connect();
    let d = srv.connect();
    let created = srv.join_chat(c, group_profile("ccccc", "C", "create", None));
    let code = created_code(&created);
    let _ = srv.join_chat(d, group_profile("ddddd", "D", "join", Some(code.clone())));
    let out = srv.typing_start(d, true, None);
    assert_eq!(
        out,
        vec![Delivery {
            to: c,
            event: ServerEvent::TypingStarted { username: Some("D".to_string()) },
        }]
    );
}

#[test]
fn group_file_status_names_the_uploader() {
    let mut srv = ChatServer::new();
    let c = srv.connect();
    let d = srv.connect();
    let created = srv.join_chat(c, group_profile("ccccc", "C", "create", None));
    let code = created_code(&created);
    let _ = srv.join_chat(d, group_profile("ddddd", "D", "join", Some(code.clone())));
    let started = srv.file_sending_start(c, "f-1".to_string(), true, None);
    assert_eq!(
        started,
        vec![Delivery {
            to: d,
            event: ServerEvent::FileSendingStarted {
                file_id: "f-1".to_string(),
                username: "C".to_string(),
            },
        }]
    );
    let ended = srv.file_sending_end(c, "f-1".to_string(), true, None);
    assert_eq!(
        ended,
        vec![Delivery {
            to: d,
            event: ServerEvent::FileSendingEnded {
                file_id: "f-1".to_string(),
                username: "C".to_string(),
            },
        }]
    );
}

#[test]
fn explicit_group_code_overrides_the_remembered_group() {
    let mut srv = ChatServer::new();
    let c = srv.connect();
    let d = srv.connect();
    let created = srv.join_chat(c, group_profile("ccccc", "C", "create", None));
    let code = created_code(&created);
    let _ = srv.join_chat(d, group_profile("ddddd", "D", "join", Some(code.clone())));
    // an explicit code that resolves nowhere means silent non-delivery
    let msg = yapchat::envelope::EncryptedMessage {
        encrypted: "ct".to_string(),
        nonce: "n".to_string(),
        reply_to: None,
    };
    let out = srv.send_message(d, msg, true, Some("zzzzzz".to_string()));
    assert!(out.is_empty());
}

#[test]
fn group_relay_requires_an_explicit_code() {
    let mut srv = ChatServer::new();
    let c = srv.connect();
    let d = srv.connect();
    let created = srv.join_chat(c, group_profile("ccccc", "C", "create", None));
    let code = created_code(&created);
    let _ = srv.join_chat(d, group_profile("ddddd", "D", "join", Some(code.clone())));
    let none = srv.relay_webrtc_event(
        d,
        "webrtc_answer".to_string(),
        String::new(),
        "{}".to_string(),
        true,
        None,
    );
    assert!(none.is_empty());
    let out = srv.relay_webrtc_event(
        d,
        "webrtc_answer".to_string(),
        String::new(),
        "{\"sdp\":\"a\"}".to_string(),
        true,
        Some(code),
    );
    assert_eq!(
        out,
        vec![Delivery {
            to: c,
            event: ServerEvent::WebRtc {
                event_type: "webrtc_answer".to_string(),
                payload: "{\"sdp\":\"a\"}".to_string(),
            },
        }]
    );
}

#[test]
fn generated_codes_are_six_alphanumerics() {
    for _ in 0..32 {
        let code = yapchat::groups::generate_group_code();
        assert_eq!(code.chars().count(), 6);
        assert!(code.chars().all(|ch| ch.is_ascii_alphanumeric()));
    }
}
