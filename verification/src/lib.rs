//! Session coordination core for an anonymous, end-to-end-encrypted chat
//! service: a single-writer state machine that owns connection registration,
//! pairwise matchmaking, group membership and message fan-out, plus the
//! envelope dispatch table that turns decoded client events into coordinator
//! commands. Transport, serialization and process bootstrap live outside this
//! crate; the coordinator reports every outbound event as an explicit
//! `Delivery` value instead of writing to a socket.

pub mod text;
pub mod rng;
pub mod keys;
pub mod json;
pub mod envelope;
pub mod server;
pub mod fanout;
pub mod groups;
pub mod matching;
pub mod dispatch;
pub mod supervisor;
pub mod bot;
pub mod laws;
