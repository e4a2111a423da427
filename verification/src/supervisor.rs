//! The connection supervisor's fixed decisions: the framing limit, the
//! heartbeat schedule, and what to do with each kind of inbound transport
//! frame. The transport loop itself — sockets, timers, queues — lives with
//! the host process and consults these.

use vstd::prelude::*;

verus! {

/// The largest message a connection accepts (5 MiB), enforced by the
/// framing layer before any decoding.
pub const MAX_MESSAGE_BYTES: usize = 5 * 1024 * 1024;

/// How often a liveness ping goes out, independent of application traffic.
pub const HEARTBEAT_INTERVAL_MS: u64 = 5 * 1000;

/// How long without observed inbound activity before a connection is
/// forcibly terminated; much longer than the ping interval.
pub const CLIENT_TIMEOUT_MS: u64 = 3600 * 1000;

/// One inbound transport item, as the supervisor's loop sees it.
#[derive(Debug, PartialEq, Eq)]
pub enum FrameKind {
    Text,
    Binary,
    Ping,
    Pong,
    Close,
}

/// What the supervisor does with one inbound frame.
#[derive(Debug, PartialEq, Eq)]
pub enum FrameAction {
    /// Decode the envelope and dispatch the command it selects.
    Dispatch,
    /// Answer with a pong; failing to answer is a transport error.
    ReplyPong,
    /// Log and carry on: binary frames and unexpected pongs are non-fatal.
    Ignore,
    /// Leave the event loop; teardown follows.
    Terminate,
}

/// The supervisor's response to one inbound frame: text is dispatched,
/// a ping is answered, binary and pong are ignored, close terminates.
pub fn frame_action(frame: &FrameKind) -> (r: FrameAction)
    ensures
        r == (match frame {
            FrameKind::Text => FrameAction::Dispatch,
            FrameKind::Binary => FrameAction::Ignore,
            FrameKind::Ping => FrameAction::ReplyPong,
            FrameKind::Pong => FrameAction::Ignore,
            FrameKind::Close => FrameAction::Terminate,
        }),
{
    match frame {
        FrameKind::Text => FrameAction::Dispatch,
        FrameKind::Binary => FrameAction::Ignore,
        FrameKind::Ping => FrameAction::ReplyPong,
        FrameKind::Pong => FrameAction::Ignore,
        FrameKind::Close => FrameAction::Terminate,
    }
}

/// Whether the time since the last observed inbound activity has exceeded
/// the liveness window.
pub fn heartbeat_expired(elapsed_ms: u64) -> (r: bool)
    ensures
        r == (elapsed_ms > CLIENT_TIMEOUT_MS),
{
    elapsed_ms > CLIENT_TIMEOUT_MS
}

} // verus!
