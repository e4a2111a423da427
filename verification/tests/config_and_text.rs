use yapchat::bot::bot_reply;
use yapchat::keys::{
    get_allowed_origin, get_app_host, get_telegram_bot_token, get_which_node_env_url, BotKeys,
    ServerKeys,
};
use yapchat::supervisor::{frame_action, heartbeat_expired, FrameAction, FrameKind};
use yapchat::text::{parse_conn_id, str_eq, str_starts_with};

#[test]
fn cors_origin_follows_the_environment() {
    let prod = ServerKeys::new("production".to_string(), "chat.example.net".to_string());
    assert_eq!(prod.cors_allowed_origin(), "https://chat.example.net/");
    let dev = ServerKeys::new("development".to_string(), "chat.example.net".to_string());
    assert_eq!(dev.cors_allowed_origin(), "http://localhost:3000");
}

#[test]
fn key_getters_hand_back_the_configured_values() {
    let sk = ServerKeys::new("production".to_string(), "origin.example".to_string());
    assert_eq!(get_which_node_env_url(&sk), "production");
    assert_eq!(get_allowed_origin(&sk), "origin.example");
    let bk = BotKeys::new("SECRET-REDACTED".to_string(), "bot.example".to_string());
    assert_eq!(get_telegram_bot_token(&bk), "SECRET-REDACTED");
    assert_eq!(get_app_host(&bk), "bot.example");
    assert_eq!(bk.webhook_url(), "https://bot.example/webhook");
}

#[test]
fn conn_id_parsing_accepts_only_canonical_decimals() {
    assert_eq!(parse_conn_id("0"), Some(0));
    assert_eq!(parse_conn_id("7"), Some(7));
    assert_eq!(parse_conn_id("18446744073709551615"), Some(u64::MAX));
    assert_eq!(parse_conn_id("18446744073709551616"), None);
    assert_eq!(parse_conn_id("007"), None);
    assert_eq!(parse_conn_id(""), None);
    assert_eq!(parse_conn_id("12a"), None);
    assert_eq!(parse_conn_id("-3"), None);
}

#[test]
fn string_helpers_compare_by_characters() {
    assert!(str_eq("abc", "abc"));
    assert!(!str_eq("abc", "abd"));
    assert!(str_starts_with("/chat now", "/chat"));
    assert!(str_starts_with("/chat", "/chat"));
    assert!(!str_starts_with("/cha", "/chat"));
    assert!(!str_starts_with("x/chat", "/chat"));
}

#[test]
fn bot_answers_its_fixed_commands() {
    let start = bot_reply("/start").expect("reply owed");
    assert!(start.text.contains("Try /help"));
    assert!(start.button.is_none());
    let chat = bot_reply("/chat please").expect("reply owed");
    let button = chat.button.expect("button owed");
    assert_eq!(button.url, "https://t.me/yapsworld_bot/chat");
    let link = bot_reply("/link").expect("reply owed");
    assert_eq!(
        link.button.expect("button owed").url,
        "https://t.me/yapsworld_bot/link"
    );
    let loom = bot_reply("/loomX").expect("reply owed");
    assert_eq!(
        loom.button.expect("button owed").url,
        "https://t.me/yapsworld_bot/loom"
    );
    assert!(bot_reply("/help").is_some());
    assert!(bot_reply("/enterprise").is_some());
    assert!(bot_reply("hello there").is_none());
}

#[test]
fn frame_policy_matches_the_transport_contract() {
    assert_eq!(frame_action(&FrameKind::Text), FrameAction::Dispatch);
    assert_eq!(frame_action(&FrameKind::Ping), FrameAction::ReplyPong);
    assert_eq!(frame_action(&FrameKind::Pong), FrameAction::Ignore);
    assert_eq!(frame_action(&FrameKind::Binary), FrameAction::Ignore);
    assert_eq!(frame_action(&FrameKind::Close), FrameAction::Terminate);
}

#[test]
fn heartbeat_expires_only_past_the_window() {
    assert!(!heartbeat_expired(0));
    assert!(!heartbeat_expired(3_600_000));
    assert!(heartbeat_expired(3_600_001));
}
