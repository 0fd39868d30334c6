//! Server-side core of the Engine.IO and Socket.IO protocols.
//!
//! The crate holds the protocol machinery and nothing that reads a socket
//! or a clock. Whoever owns the listener hands it requests and frames as
//! plain values and gets plain values back; timers tell it the time.
//!
//! From the wire upwards:
//!
//! - [`text`], [`base64`], [`sid`], [`json`]: bytes, numbers, identifiers,
//!   and the one question asked of the JSON parser.
//! - [`engine_packet`], [`packet`], [`attachments`]: the packets of the
//!   two protocols, their string forms, and binary data inside JSON.
//! - [`session`]: the Engine.IO session, a state machine with its send
//!   queue, heartbeat and transport upgrade.
//! - [`request`], [`registry`], [`engine`], [`handler`], [`layer`]: the
//!   endpoint: routing of requests to sessions, and the handler that is
//!   told what happens to them.
//! - [`reassembly`], [`ns`], [`adapter`], [`client`]: the Socket.IO layer:
//!   binary packets put together again, namespaces with their sockets and
//!   rooms, and the client layer that routes packets to them.

pub mod adapter;
pub mod attachments;
pub mod base64;
pub mod client;
pub mod config;
pub mod engine;
pub mod engine_packet;
pub mod errors;
pub mod handler;
pub mod json;
pub mod layer;
pub mod ns;
pub mod packet;
pub mod reassembly;
pub mod registry;
pub mod request;
pub mod search;
pub mod session;
pub mod sid;
pub mod text;
