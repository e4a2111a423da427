//! Event dispatch: the catalog of supported client events. Given a decoded
//! envelope, builds the coordinator command it selects, or drops the
//! envelope when the event name is unknown or the payload misses a
//! required field — never an error to the sender.

use vstd::prelude::*;
use crate::envelope::ClientEvent;
use crate::envelope::EncryptedMessage;
use crate::envelope::MessageV;
use crate::envelope::ProfileV;
use crate::envelope::UserProfile;
use crate::json::JsonValue;
use crate::json::spec_field;
use crate::text::opt_view;
use crate::text::str_eq;

verus! {

/// A coordinator command, as decoded from one inbound envelope. The
/// issuing connection is implicit: each supervisor dispatches only for its
/// own connection.
#[derive(Debug, PartialEq)]
pub enum Command {
    JoinChat { profile: UserProfile },
    SendMessage { message: EncryptedMessage, is_group_chat: bool, group_code: Option<String> },
    TypingStart { is_group_chat: bool, group_code: Option<String> },
    TypingStop { is_group_chat: bool, group_code: Option<String> },
    FileSendingStart { file_id: String, is_group_chat: bool, group_code: Option<String> },
    FileSendingEnd { file_id: String, is_group_chat: bool, group_code: Option<String> },
    DeleteMessage { message_id: String, is_group_chat: bool, group_code: Option<String> },
    DisconnectChat,
    RelayWebRTCEvent {
        event_type: String,
        target_id: String,
        payload: String,
        is_group_chat: bool,
        group_code: Option<String>,
    },
}

/// The view of a command.
pub enum CommandV {
    JoinChat { profile: ProfileV },
    SendMessage { message: MessageV, is_group_chat: bool, group_code: Option<Seq<char>> },
    TypingStart { is_group_chat: bool, group_code: Option<Seq<char>> },
    TypingStop { is_group_chat: bool, group_code: Option<Seq<char>> },
    FileSendingStart {
        file_id: Seq<char>,
        is_group_chat: bool,
        group_code: Option<Seq<char>>,
    },
    FileSendingEnd { file_id: Seq<char>, is_group_chat: bool, group_code: Option<Seq<char>> },
    DeleteMessage {
        message_id: Seq<char>,
        is_group_chat: bool,
        group_code: Option<Seq<char>>,
    },
    DisconnectChat,
    RelayWebRTCEvent {
        event_type: Seq<char>,
        target_id: Seq<char>,
        payload: Seq<char>,
        is_group_chat: bool,
        group_code: Option<Seq<char>>,
    },
}

impl View for Command {
    type V = CommandV;

    open spec fn view(&self) -> CommandV {
        match self {
            Command::JoinChat { profile } => CommandV::JoinChat { profile: profile@ },
            Command::SendMessage { message, is_group_chat, group_code } => CommandV::SendMessage {
                message: message@,
                is_group_chat: *is_group_chat,
                group_code: opt_view(*group_code),
            },
            Command::TypingStart { is_group_chat, group_code } => CommandV::TypingStart {
                is_group_chat: *is_group_chat,
                group_code: opt_view(*group_code),
            },
            Command::TypingStop { is_group_chat, group_code } => CommandV::TypingStop {
                is_group_chat: *is_group_chat,
                group_code: opt_view(*group_code),
            },
            Command::FileSendingStart { file_id, is_group_chat, group_code } => CommandV::FileSendingStart {
                file_id: file_id@,
                is_group_chat: *is_group_chat,
                group_code: opt_view(*group_code),
            },
            Command::FileSendingEnd { file_id, is_group_chat, group_code } => CommandV::FileSendingEnd {
                file_id: file_id@,
                is_group_chat: *is_group_chat,
                group_code: opt_view(*group_code),
            },
            Command::DeleteMessage { message_id, is_group_chat, group_code } => CommandV::DeleteMessage {
                message_id: message_id@,
                is_group_chat: *is_group_chat,
                group_code: opt_view(*group_code),
            },
            Command::DisconnectChat => CommandV::DisconnectChat,
            Command::RelayWebRTCEvent {
                event_type,
                target_id,
                payload,
                is_group_chat,
                group_code,
            } => CommandV::RelayWebRTCEvent {
                event_type: event_type@,
                target_id: target_id@,
                payload: payload@,
                is_group_chat: *is_group_chat,
                group_code: opt_view(*group_code),
            },
        }
    }
}

/// The view of an optional command.
pub open spec fn cmd_view(r: Option<Command>) -> Option<CommandV> {
    match r {
        Some(c) => Some(c@),
        None => None,
    }
}

/// A required string field: its characters, or nothing when absent or of
/// another type.
pub open spec fn req_str(d: JsonValue, key: Seq<char>) -> Option<Seq<char>> {
    match spec_field(d, key) {
        Some(JsonValue::Str(s)) => Some(s@),
        _ => None,
    }
}

/// An optional string field: absent and `null` decode as nothing, a string
/// as itself, any other type as a decode failure.
pub open spec fn opt_str(d: JsonValue, key: Seq<char>) -> Option<Option<Seq<char>>> {
    match spec_field(d, key) {
        None => Some(None),
        Some(JsonValue::Null) => Some(None),
        Some(JsonValue::Str(s)) => Some(Some(s@)),
        Some(_) => None,
    }
}

/// A required boolean field.
pub open spec fn req_bool(d: JsonValue, key: Seq<char>) -> Option<bool> {
    match spec_field(d, key) {
        Some(JsonValue::Bool(b)) => Some(b),
        _ => None,
    }
}

/// An optional 32-bit integer field: absent and `null` decode as nothing,
/// an in-range integer as itself, anything else as a decode failure.
pub open spec fn opt_i32(d: JsonValue, key: Seq<char>) -> Option<Option<i32>> {
    match spec_field(d, key) {
        None => Some(None),
        Some(JsonValue::Null) => Some(None),
        Some(JsonValue::Int(x)) => if i32::MIN <= x <= i32::MAX {
            Some(Some(x as i32))
        } else {
            None
        },
        Some(_) => None,
    }
}

/// The decoded `join_chat` payload.
pub open spec fn profile_payload(d: JsonValue) -> Option<ProfileV> {
    match (req_str(d, "user_id"@), req_str(d, "username"@), req_str(d, "preference"@)) {
        (Some(user_id), Some(username), Some(preference)) => {
            match (req_str(d, "gender"@), req_str(d, "room_type"@)) {
                (Some(gender), Some(room_type)) => {
                    match (opt_str(d, "group_code"@), opt_str(d, "group_join_method"@)) {
                        (Some(group_code), Some(group_join_method)) => Some(
                            ProfileV {
                                user_id,
                                username,
                                preference,
                                gender,
                                room_type,
                                group_code,
                                group_join_method,
                            },
                        ),
                        _ => None,
                    }
                }
                _ => None,
            }
        }
        _ => None,
    }
}

/// The decoded nested `message` object of a `send_message` payload.
pub open spec fn message_payload(d: JsonValue) -> Option<MessageV> {
    match spec_field(d, "message"@) {
        Some(m) => match (req_str(m, "encrypted"@), req_str(m, "nonce"@), opt_i32(
            m,
            "reply_to"@,
        )) {
            (Some(encrypted), Some(nonce), Some(reply_to)) => Some(
                MessageV { encrypted, nonce, reply_to },
            ),
            _ => None,
        },
        None => None,
    }
}

/// The decoded `send_message` payload, with the standalone reply hint
/// merged into the message when the message carries none.
pub open spec fn send_payload(d: JsonValue) -> Option<(MessageV, bool, Option<Seq<char>>)> {
    match (message_payload(d), req_bool(d, "is_group_chat"@)) {
        (Some(m), Some(g)) => match (opt_str(d, "group_code"@), opt_i32(d, "reply_to_id"@)) {
            (Some(c), Some(rid)) => {
                let merged = if m.reply_to is None {
                    MessageV { reply_to: rid, ..m }
                } else {
                    m
                };
                Some((merged, g, c))
            }
            _ => None,
        },
        _ => None,
    }
}

/// The decoded scope of a typing signal.
pub open spec fn typing_payload(d: JsonValue) -> Option<(bool, Option<Seq<char>>)> {
    match (req_bool(d, "is_group_chat"@), opt_str(d, "group_code"@)) {
        (Some(g), Some(c)) => Some((g, c)),
        _ => None,
    }
}

/// The decoded payload of a file-status signal.
pub open spec fn file_payload(d: JsonValue) -> Option<(Seq<char>, bool, Option<Seq<char>>)> {
    match (req_str(d, "file_id"@), req_bool(d, "is_group_chat"@), opt_str(d, "group_code"@)) {
        (Some(f), Some(g), Some(c)) => Some((f, g, c)),
        _ => None,
    }
}

/// The decoded payload of a message deletion.
pub open spec fn delete_payload(d: JsonValue) -> Option<(Seq<char>, bool, Option<Seq<char>>)> {
    match (req_str(d, "message_id"@), req_bool(d, "is_group_chat"@), opt_str(
        d,
        "group_code"@,
    )) {
        (Some(mid), Some(g), Some(c)) => Some((mid, g, c)),
        _ => None,
    }
}

/// The routing fields of a call-negotiation payload, with the documented
/// fallbacks: a missing or non-string target reads as empty, a missing or
/// non-boolean scope as pairwise, a missing or non-string code as none.
pub open spec fn rtc_target(d: JsonValue) -> Seq<char> {
    match spec_field(d, "target_id"@) {
        Some(JsonValue::Str(s)) => s@,
        _ => ""@,
    }
}

pub open spec fn rtc_is_group(d: JsonValue) -> bool {
    match spec_field(d, "is_group_chat"@) {
        Some(JsonValue::Bool(b)) => b,
        _ => false,
    }
}

pub open spec fn rtc_code(d: JsonValue) -> Option<Seq<char>> {
    match spec_field(d, "group_code"@) {
        Some(JsonValue::Str(s)) => Some(s@),
        _ => None,
    }
}

/// Whether `event` is one of the four call-negotiation event names.
pub open spec fn is_rtc_event(event: Seq<char>) -> bool {
    ||| event == "webrtc_offer"@
    ||| event == "webrtc_answer"@
    ||| event == "webrtc_ice_candidate"@
    ||| event == "webrtc_end_call"@
}

/// The command one decoded envelope selects, or nothing when the event is
/// unknown or its payload fails to decode. `raw` is the payload's
/// serialized form, forwarded byte for byte as a relay payload. A
/// call-negotiation event without a target is dropped; one in group scope
/// without a code is dropped.
pub open spec fn dispatch_spec(event: Seq<char>, d: JsonValue, raw: Seq<char>) -> Option<
    CommandV,
> {
    if event == "join_chat"@ {
        match profile_payload(d) {
            Some(p) => Some(CommandV::JoinChat { profile: p }),
            None => None,
        }
    } else if is_rtc_event(event) {
        let t = rtc_target(d);
        if t.len() == 0 {
            None
        } else if !rtc_is_group(d) {
            Some(
                CommandV::RelayWebRTCEvent {
                    event_type: event,
                    target_id: t,
                    payload: raw,
                    is_group_chat: false,
                    group_code: None,
                },
            )
        } else {
            match rtc_code(d) {
                Some(c) => Some(
                    CommandV::RelayWebRTCEvent {
                        event_type: event,
                        target_id: t,
                        payload: raw,
                        is_group_chat: true,
                        group_code: Some(c),
                    },
                ),
                None => None,
            }
        }
    } else if event == "send_message"@ {
        match send_payload(d) {
            Some((m, g, c)) => Some(
                CommandV::SendMessage { message: m, is_group_chat: g, group_code: c },
            ),
            None => None,
        }
    } else if event == "typing_start"@ {
        match typing_payload(d) {
            Some((g, c)) => Some(CommandV::TypingStart { is_group_chat: g, group_code: c }),
            None => None,
        }
    } else if event == "typing_stop"@ {
        match typing_payload(d) {
            Some((g, c)) => Some(CommandV::TypingStop { is_group_chat: g, group_code: c }),
            None => None,
        }
    } else if event == "file_sending_start"@ {
        match file_payload(d) {
            Some((f, g, c)) => Some(
                CommandV::FileSendingStart { file_id: f, is_group_chat: g, group_code: c },
            ),
            None => None,
        }
    } else if event == "file_sending_end"@ {
        match file_payload(d) {
            Some((f, g, c)) => Some(
                CommandV::FileSendingEnd { file_id: f, is_group_chat: g, group_code: c },
            ),
            None => None,
        }
    } else if event == "delete_message"@ {
        match delete_payload(d) {
            Some((mid, g, c)) => Some(
                CommandV::DeleteMessage { message_id: mid, is_group_chat: g, group_code: c },
            ),
            None => None,
        }
    } else if event == "disconnect_chat"@ {
        Some(CommandV::DisconnectChat)
    } else {
        None
    }
}

fn get_req_str(d: &JsonValue, key: &str) -> (r: Option<String>)
    ensures
        opt_view(r) == req_str(*d, key@),
{
    match d.get(key) {
        Some(v) => match v.as_str() {
            Some(s) => Some(s.clone()),
            None => None,
        },
        None => None,
    }
}

fn get_opt_str(d: &JsonValue, key: &str) -> (r: Option<Option<String>>)
    ensures
        match r {
            Some(o) => opt_str(*d, key@) == Some(opt_view(o)),
            None => opt_str(*d, key@) is None,
        },
{
    match d.get(key) {
        None => Some(None),
        Some(v) => match v {
            JsonValue::Null => Some(None),
            JsonValue::Str(s) => Some(Some(s.clone())),
            _ => None,
        },
    }
}

fn get_req_bool(d: &JsonValue, key: &str) -> (r: Option<bool>)
    ensures
        r == req_bool(*d, key@),
{
    match d.get(key) {
        Some(v) => v.as_bool(),
        None => None,
    }
}

fn get_opt_i32(d: &JsonValue, key: &str) -> (r: Option<Option<i32>>)
    ensures
        r == opt_i32(*d, key@),
{
    match d.get(key) {
        None => Some(None),
        Some(v) => match v {
            JsonValue::Null => Some(None),
            JsonValue::Int(x) => {
                let x = *x;
                if i32::MIN as i64 <= x && x <= i32::MAX as i64 {
                    Some(Some(x as i32))
                } else {
                    None
                }
            }
            _ => None,
        },
    }
}

fn parse_profile(d: &JsonValue) -> (r: Option<UserProfile>)
    ensures
        match r {
            Some(p) => profile_payload(*d) == Some(p@),
            None => profile_payload(*d) is None,
        },
{
    let user_id = get_req_str(d, "user_id");
    let username = get_req_str(d, "username");
    let preference = get_req_str(d, "preference");
    let gender = get_req_str(d, "gender");
    let room_type = get_req_str(d, "room_type");
    let group_code = get_opt_str(d, "group_code");
    let group_join_method = get_opt_str(d, "group_join_method");
    match (user_id, username, preference, gender, room_type, group_code, group_join_method) {
        (
            Some(user_id),
            Some(username),
            Some(preference),
            Some(gender),
            Some(room_type),
            Some(group_code),
            Some(group_join_method),
        ) => Some(
            UserProfile {
                user_id,
                username,
                preference,
                gender,
                room_type,
                group_code,
                group_join_method,
            },
        ),
        _ => None,
    }
}

fn parse_message(d: &JsonValue) -> (r: Option<EncryptedMessage>)
    ensures
        match r {
            Some(m) => message_payload(*d) == Some(m@),
            None => message_payload(*d) is None,
        },
{
    match d.get("message") {
        Some(m) => {
            let encrypted = get_req_str(m, "encrypted");
            let nonce = get_req_str(m, "nonce");
            let reply_to = get_opt_i32(m, "reply_to");
            match (encrypted, nonce, reply_to) {
                (Some(encrypted), Some(nonce), Some(reply_to)) => Some(
                    EncryptedMessage { encrypted, nonce, reply_to },
                ),
                _ => None,
            }
        }
        None => None,
    }
}

/// Builds the coordinator command a decoded envelope selects, or `None`
/// when the envelope must be dropped. `raw_data` is the serialized form of
/// the payload, used verbatim when a call-negotiation payload is relayed.
pub fn dispatch_event(ev: &ClientEvent, raw_data: &str) -> (r: Option<Command>)
    ensures
        cmd_view(r) == dispatch_spec(ev.event@, ev.data, raw_data@),
{
    let event = ev.event.as_str();
    let d = &ev.data;
    if str_eq(event, "join_chat") {
        match parse_profile(d) {
            Some(profile) => Some(Command::JoinChat { profile }),
            None => None,
        }
    } else if str_eq(event, "webrtc_offer") || str_eq(event, "webrtc_answer") || str_eq(
        event,
        "webrtc_ice_candidate",
    ) || str_eq(event, "webrtc_end_call") {
        let target: Option<String> = match d.get("target_id") {
            Some(v) => match v.as_str() {
                Some(s) => Some(s.clone()),
                None => None,
            },
            None => None,
        };
        let is_group: bool = match d.get("is_group_chat") {
            Some(v) => match v.as_bool() {
                Some(b) => b,
                None => false,
            },
            None => false,
        };
        let code: Option<String> = match d.get("group_code") {
            Some(v) => match v.as_str() {
                Some(s) => Some(s.clone()),
                None => None,
            },
            None => None,
        };
        let t: String = match target {
            Some(s) => s,
            None => String::new(),
        };
        proof {
            reveal_strlit("");
            assert(""@ =~= Seq::<char>::empty());
            assert(t@ == rtc_target(ev.data));
            assert(is_group == rtc_is_group(ev.data));
            assert(opt_view(code) == rtc_code(ev.data));
        }
        if t.as_str().is_empty() {
            None
        } else if !is_group {
            Some(
                Command::RelayWebRTCEvent {
                    event_type: ev.event.clone(),
                    target_id: t,
                    payload: raw_data.to_owned(),
                    is_group_chat: false,
                    group_code: None,
                },
            )
        } else {
            match code {
                Some(c) => Some(
                    Command::RelayWebRTCEvent {
                        event_type: ev.event.clone(),
                        target_id: t,
                        payload: raw_data.to_owned(),
                        is_group_chat: true,
                        group_code: Some(c),
                    },
                ),
                None => None,
            }
        }
    } else if str_eq(event, "send_message") {
        let message = parse_message(d);
        let is_group = get_req_bool(d, "is_group_chat");
        let code = get_opt_str(d, "group_code");
        let rid = get_opt_i32(d, "reply_to_id");
        match (message, is_group, code, rid) {
            (Some(mut message), Some(is_group_chat), Some(group_code), Some(rid)) => {
                if message.reply_to.is_none() {
                    message.reply_to = rid;
                }
                Some(Command::SendMessage { message, is_group_chat, group_code })
            }
            _ => None,
        }
    } else if str_eq(event, "typing_start") {
        match (get_req_bool(d, "is_group_chat"), get_opt_str(d, "group_code")) {
            (Some(is_group_chat), Some(group_code)) => Some(
                Command::TypingStart { is_group_chat, group_code },
            ),
            _ => None,
        }
    } else if str_eq(event, "typing_stop") {
        match (get_req_bool(d, "is_group_chat"), get_opt_str(d, "group_code")) {
            (Some(is_group_chat), Some(group_code)) => Some(
                Command::TypingStop { is_group_chat, group_code },
            ),
            _ => None,
        }
    } else if str_eq(event, "file_sending_start") {
        match (get_req_str(d, "file_id"), get_req_bool(d, "is_group_chat"), get_opt_str(
            d,
            "group_code",
        )) {
            (Some(file_id), Some(is_group_chat), Some(group_code)) => Some(
                Command::FileSendingStart { file_id, is_group_chat, group_code },
            ),
            _ => None,
        }
    } else if str_eq(event, "file_sending_end") {
        match (get_req_str(d, "file_id"), get_req_bool(d, "is_group_chat"), get_opt_str(
            d,
            "group_code",
        )) {
            (Some(file_id), Some(is_group_chat), Some(group_code)) => Some(
                Command::FileSendingEnd { file_id, is_group_chat, group_code },
            ),
            _ => None,
        }
    } else if str_eq(event, "delete_message") {
        match (get_req_str(d, "message_id"), get_req_bool(d, "is_group_chat"), get_opt_str(
            d,
            "group_code",
        )) {
            (Some(message_id), Some(is_group_chat), Some(group_code)) => Some(
                Command::DeleteMessage { message_id, is_group_chat, group_code },
            ),
            _ => None,
        }
    } else if str_eq(event, "disconnect_chat") {
        Some(Command::DisconnectChat)
    } else {
        None
    }
}

} // verus!
