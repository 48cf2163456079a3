//! Client-side engine for a JSON-over-WebSocket control protocol spoken by
//! networked audio devices: the message model and its wire form, correlation
//! of replies to requests, notification decoding, room-state decoding, the
//! registries of rooms and device links, and the discovery loop's decisions.
//! Sockets, timers and tasks are left to the caller, which hands this crate
//! decoded documents and events and carries out the actions it returns.
pub mod connection;
pub mod discovery;
pub mod error;
pub mod json;
pub mod link;
pub mod network;
pub mod order;
pub mod protocol;
pub mod registry;
pub mod room;
pub mod subscription;
pub mod types;

pub use connection::{Inbound, PendingTable, WaitOutcome};
pub use discovery::{DiscoveryCore, DiscoveryLoop, LoopAction, LoopEvent, Phase};
pub use error::AscendError;
pub use json::{Json, JsonValue};
pub use protocol::{
    ApiError, Endpoint, Method, Request, RequestId, RequestMeta, Response, ResponseMeta,
    TargetType,
};
pub use registry::{LinkRegistry, RoomRegistry};
pub use room::{Room, RoomState};
pub use subscription::{RecvFailure, StateUpdate};
pub use types::{Device, DeviceId, MuteData, MuteState, PositionId, RoomId};
