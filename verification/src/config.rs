//! Configuration of the two layers. Durations are milliseconds.

use vstd::prelude::*;
use vstd::string::StringExecFns;

verus! {

/// The two transports of Engine.IO.
#[derive(Clone, Copy, Debug, PartialEq, Eq, Structural)]
pub enum TransportType {
    Polling,
    Websocket,
}

/// Version of the Engine.IO protocol that a peer speaks.
#[derive(Clone, Copy, Debug, PartialEq, Eq, Structural)]
pub enum EngineVersion {
    V3,
    V4,
}

/// Options of the Engine.IO layer.
#[derive(Clone, Debug, PartialEq, Eq)]
pub struct EngineIoConfig {
    /// URL prefix of the endpoint.
    pub req_path: String,
    /// Time between two heartbeats.
    pub ping_interval: u64,
    /// Time a peer has to answer a heartbeat.
    pub ping_timeout: u64,
    /// Largest polling response, in bytes.
    pub max_payload: u64,
    /// Soft cap of a session's outbound queue, in packets.
    pub max_buffer_size: usize,
    /// Whether sessions may start on long-polling.
    pub polling: bool,
    /// Whether sessions may use a WebSocket.
    pub websocket: bool,
    /// Whether a polling session may move to a WebSocket.
    pub allow_upgrades: bool,
    /// Whether replies carry the headers that let other origins read
    /// them.
    pub cors: bool,
}

/// 25 seconds.
pub const DEFAULT_PING_INTERVAL: u64 = 25000;

/// 20 seconds.
pub const DEFAULT_PING_TIMEOUT: u64 = 20000;

/// One million bytes.
pub const DEFAULT_MAX_PAYLOAD: u64 = 1000000;

/// 128 packets.
pub const DEFAULT_MAX_BUFFER_SIZE: usize = 128;

/// 45 seconds.
pub const DEFAULT_CONNECT_TIMEOUT: u64 = 45000;

/// 5 seconds.
pub const DEFAULT_ACK_TIMEOUT: u64 = 5000;

impl EngineIoConfig {
    /// The documented defaults: path `/engine.io`, a heartbeat every 25 s
    /// with 20 s to answer, polling responses of at most 1 000 000 bytes,
    /// both transports, upgrades allowed, no cross-origin headers.
    pub open spec fn is_default(self) -> bool {
        &&& self.req_path@ == "/engine.io"@
        &&& self.ping_interval == DEFAULT_PING_INTERVAL
        &&& self.ping_timeout == DEFAULT_PING_TIMEOUT
        &&& self.max_payload == DEFAULT_MAX_PAYLOAD
        &&& self.max_buffer_size == DEFAULT_MAX_BUFFER_SIZE
        &&& self.polling
        &&& self.websocket
        &&& self.allow_upgrades
        &&& !self.cors
    }

    /// Whether sessions may be created on `transport`.
    pub fn allows(&self, transport: TransportType) -> (ok: bool)
        ensures
            ok == (match transport {
                TransportType::Polling => self.polling,
                TransportType::Websocket => self.websocket,
            }),
    {
        match transport {
            TransportType::Polling => self.polling,
            TransportType::Websocket => self.websocket,
        }
    }
}

impl Default for EngineIoConfig {
    fn default() -> (config: EngineIoConfig)
        ensures
            config.is_default(),
    {
        EngineIoConfig {
            req_path: String::from_str("/engine.io"),
            ping_interval: DEFAULT_PING_INTERVAL,
            ping_timeout: DEFAULT_PING_TIMEOUT,
            max_payload: DEFAULT_MAX_PAYLOAD,
            max_buffer_size: DEFAULT_MAX_BUFFER_SIZE,
            polling: true,
            websocket: true,
            allow_upgrades: true,
            cors: false,
        }
    }
}

/// Options of the Socket.IO layer.
#[derive(Clone, Debug, PartialEq, Eq)]
pub struct SocketIoConfig {
    /// Options of the Engine.IO layer below.
    pub engine_config: EngineIoConfig,
    /// Time a version 5 peer has to connect to a namespace.
    pub connect_timeout: u64,
    /// Time a peer has to acknowledge an event.
    pub ack_timeout: u64,
}

impl SocketIoConfig {
    /// The documented defaults: those of the Engine.IO layer, 45 s to
    /// connect to a namespace, 5 s to acknowledge an event.
    pub open spec fn is_default(self) -> bool {
        &&& self.engine_config.is_default()
        &&& self.connect_timeout == DEFAULT_CONNECT_TIMEOUT
        &&& self.ack_timeout == DEFAULT_ACK_TIMEOUT
    }
}

impl Default for SocketIoConfig {
    fn default() -> (config: SocketIoConfig)
        ensures
            config.is_default(),
    {
        SocketIoConfig {
            engine_config: EngineIoConfig::default(),
            connect_timeout: DEFAULT_CONNECT_TIMEOUT,
            ack_timeout: DEFAULT_ACK_TIMEOUT,
        }
    }
}

} // verus!
