use vstd::prelude::*;

verus! {

/// Failures reported by the engine.
#[derive(Debug)]
pub enum AscendError {
    /// The WebSocket transport failed; the transport's message.
    WebSocket(String),
    /// The connection is gone, or was never usable.
    ConnectionClosed,
    /// No reply came within the deadline.
    Timeout,
    /// The device reported an application error.
    ApiError { detail: String },
    /// A frame was not well-formed JSON, or not a valid envelope.
    Json(String),
    /// A socket could not be opened.
    Io(String),
    /// An operation named a room that is not known.
    RoomNotFound(String),
    /// A well-formed reply lacked an expected field.
    InvalidResponse(String),
    /// A subscriber fell behind or its channel failed.
    ChannelError(String),
}

} // verus!
