//! The data shapes of the wire protocol: the inbound envelope, the payload
//! of a chat message, a joining user's profile, and the catalog of outbound
//! events. Outbound events are explicit tagged variants; serialization to
//! wire text is the transport layer's job.

use vstd::prelude::*;
use crate::json::JsonValue;

verus! {

/// An end-to-end-encrypted chat message; the coordinator treats the
/// ciphertext and nonce as opaque and reads only the reply routing hint.
#[derive(Debug, Clone, PartialEq)]
pub struct EncryptedMessage {
    pub encrypted: String,
    pub nonce: String,
    pub reply_to: Option<i32>,
}

/// The profile a client supplies when joining a chat.
#[derive(Debug, Clone, PartialEq)]
pub struct UserProfile {
    pub user_id: String,
    pub username: String,
    pub preference: String,
    pub gender: String,
    pub room_type: String,
    pub group_code: Option<String>,
    pub group_join_method: Option<String>,
}

/// A decoded inbound envelope: an event name and its payload.
#[derive(Debug, PartialEq)]
pub struct ClientEvent {
    pub event: String,
    pub data: JsonValue,
}

/// One outbound event of the catalog.
#[derive(Debug, Clone, PartialEq)]
pub enum ServerEvent {
    WaitingForMatch,
    /// Sent to both ends of a fresh pairing (no code) and to a client that
    /// entered a group (with the group's code).
    ChatStarted { group_code: Option<String> },
    PartnerDisconnected,
    ReceiveMessage { message: EncryptedMessage, sender: String, reply_to: Option<i32> },
    /// Carries the typist's name in group scope and nothing in pairwise scope.
    TypingStarted { username: Option<String> },
    TypingStopped { username: Option<String> },
    FileSendingStarted { file_id: String, username: String },
    FileSendingEnded { file_id: String, username: String },
    MessageDeleted { message_id: String },
    GroupMembersUpdate { usernames: Vec<String> },
    UserJoinedGroup { username: String },
    UserLeftGroup { username: String },
    GroupNotFound,
    /// Call-negotiation pass-through: the original payload, byte for byte,
    /// under the original event name.
    WebRtc { event_type: String, payload: String },
}

/// One outbound event addressed to one connection's delivery queue.
#[derive(Debug, Clone, PartialEq)]
pub struct Delivery {
    pub to: u64,
    pub event: ServerEvent,
}

/// The view of an encrypted message.
pub struct MessageV {
    pub encrypted: Seq<char>,
    pub nonce: Seq<char>,
    pub reply_to: Option<i32>,
}

/// The view of a joining user's profile.
pub struct ProfileV {
    pub user_id: Seq<char>,
    pub username: Seq<char>,
    pub preference: Seq<char>,
    pub gender: Seq<char>,
    pub room_type: Seq<char>,
    pub group_code: Option<Seq<char>>,
    pub group_join_method: Option<Seq<char>>,
}

/// The view of an outbound event.
pub enum EventV {
    WaitingForMatch,
    ChatStarted { group_code: Option<Seq<char>> },
    PartnerDisconnected,
    ReceiveMessage { message: MessageV, sender: Seq<char>, reply_to: Option<i32> },
    TypingStarted { username: Option<Seq<char>> },
    TypingStopped { username: Option<Seq<char>> },
    FileSendingStarted { file_id: Seq<char>, username: Seq<char> },
    FileSendingEnded { file_id: Seq<char>, username: Seq<char> },
    MessageDeleted { message_id: Seq<char> },
    GroupMembersUpdate { usernames: Seq<Seq<char>> },
    UserJoinedGroup { username: Seq<char> },
    UserLeftGroup { username: Seq<char> },
    GroupNotFound,
    WebRtc { event_type: Seq<char>, payload: Seq<char> },
}

/// The view of one addressed delivery.
pub struct DeliveryV {
    pub to: u64,
    pub event: EventV,
}

impl View for EncryptedMessage {
    type V = MessageV;

    open spec fn view(&self) -> MessageV {
        MessageV { encrypted: self.encrypted@, nonce: self.nonce@, reply_to: self.reply_to }
    }
}

impl View for UserProfile {
    type V = ProfileV;

    open spec fn view(&self) -> ProfileV {
        ProfileV {
            user_id: self.user_id@,
            username: self.username@,
            preference: self.preference@,
            gender: self.gender@,
            room_type: self.room_type@,
            group_code: crate::text::opt_view(self.group_code),
            group_join_method: crate::text::opt_view(self.group_join_method),
        }
    }
}

impl View for ServerEvent {
    type V = EventV;

    open spec fn view(&self) -> EventV {
        match self {
            ServerEvent::WaitingForMatch => EventV::WaitingForMatch,
            ServerEvent::ChatStarted { group_code } => EventV::ChatStarted {
                group_code: crate::text::opt_view(*group_code),
            },
            ServerEvent::PartnerDisconnected => EventV::PartnerDisconnected,
            ServerEvent::ReceiveMessage { message, sender, reply_to } => EventV::ReceiveMessage {
                message: message@,
                sender: sender@,
                reply_to: *reply_to,
            },
            ServerEvent::TypingStarted { username } => EventV::TypingStarted {
                username: crate::text::opt_view(*username),
            },
            ServerEvent::TypingStopped { username } => EventV::TypingStopped {
                username: crate::text::opt_view(*username),
            },
            ServerEvent::FileSendingStarted { file_id, username } => EventV::FileSendingStarted {
                file_id: file_id@,
                username: username@,
            },
            ServerEvent::FileSendingEnded { file_id, username } => EventV::FileSendingEnded {
                file_id: file_id@,
                username: username@,
            },
            ServerEvent::MessageDeleted { message_id } => EventV::MessageDeleted {
                message_id: message_id@,
            },
            ServerEvent::GroupMembersUpdate { usernames } => EventV::GroupMembersUpdate {
                usernames: usernames.deep_view(),
            },
            ServerEvent::UserJoinedGroup { username } => EventV::UserJoinedGroup {
                username: username@,
            },
            ServerEvent::UserLeftGroup { username } => EventV::UserLeftGroup {
                username: username@,
            },
            ServerEvent::GroupNotFound => EventV::GroupNotFound,
            ServerEvent::WebRtc { event_type, payload } => EventV::WebRtc {
                event_type: event_type@,
                payload: payload@,
            },
        }
    }
}

impl View for Delivery {
    type V = DeliveryV;

    open spec fn view(&self) -> DeliveryV {
        DeliveryV { to: self.to, event: self.event@ }
    }
}

/// The views of a sequence of deliveries, in order.
pub open spec fn views_of(s: Seq<Delivery>) -> Seq<DeliveryV> {
    s.map_values(|d: Delivery| d@)
}

} // verus!
