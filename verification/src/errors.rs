//! Error taxonomies of the two protocol layers.

use crate::sid::Sid;
use vstd::prelude::*;

verus! {

/// Why an Engine.IO session ended. Every reason is terminal to the
/// session.
#[derive(Clone, Copy, Debug, PartialEq, Eq, Structural)]
pub enum DisconnectReason {
    /// The peer or the server closed the transport in good order.
    TransportClose,
    /// The transport failed, or the outbound buffer overflowed.
    TransportError,
    /// The peer missed a heartbeat deadline.
    HeartbeatTimeout,
    /// The peer sent something that does not decode, or sent frames out
    /// of order.
    PacketParsingError,
    /// A second long-poll arrived while one was pending.
    MultipleHttpPollingError,
    /// The server is going down.
    ServerShutdown,
}

/// Errors of the Socket.IO layer.
#[derive(Clone, Copy, Debug, PartialEq, Eq, Structural)]
pub enum Error {
    /// The type digit, the attachment count or the ack id is malformed, or
    /// the packet type does not admit what follows it.
    InvalidPacketType,
    /// A namespace does not begin with `/`.
    InvalidNamespace,
    /// A payload is not the JSON that its packet type asks for.
    InvalidJson,
    /// A binary string form does not hold base64.
    InvalidBase64,
    /// A binary frame arrived with no binary packet waiting for it.
    UnexpectedBinary,
    /// A string packet arrived while a binary packet still waited for
    /// attachments.
    MissingAttachments,
    /// A placeholder names an attachment that is not there.
    InvalidPlaceholder,
    /// A binary packet holds more attachments than it declares.
    TooManyAttachments,
    /// An acknowledgement names an id that nobody waits for.
    UnknownAckId,
    /// The namespace holds no socket for this session.
    SocketGone(Sid),
    /// The session no longer takes packets.
    SessionClosed,
    /// The session's outbound buffer is full.
    BufferFull,
}

impl Error {
    /// The reason with which a session is closed on this error; `None`
    /// for the errors that stay local to a namespace.
    pub open spec fn close_reason(self) -> Option<DisconnectReason> {
        match self {
            Error::InvalidPacketType
            | Error::InvalidJson
            | Error::InvalidBase64
            | Error::UnexpectedBinary
            | Error::MissingAttachments
            | Error::InvalidPlaceholder
            | Error::TooManyAttachments => Some(DisconnectReason::PacketParsingError),
            Error::BufferFull => Some(DisconnectReason::TransportError),
            Error::InvalidNamespace
            | Error::UnknownAckId
            | Error::SocketGone(_)
            | Error::SessionClosed => None,
        }
    }

    /// Decoding errors escalate to a session close, a buffer overflow is a
    /// transport error, and errors of namespace dispatch close nothing.
    pub fn disconnect_reason(&self) -> (r: Option<DisconnectReason>)
        ensures
            r == self.close_reason(),
    {
        match self {
            Error::InvalidPacketType
            | Error::InvalidJson
            | Error::InvalidBase64
            | Error::UnexpectedBinary
            | Error::MissingAttachments
            | Error::InvalidPlaceholder
            | Error::TooManyAttachments => Some(DisconnectReason::PacketParsingError),
            Error::BufferFull => Some(DisconnectReason::TransportError),
            Error::InvalidNamespace
            | Error::UnknownAckId
            | Error::SocketGone(_)
            | Error::SessionClosed => None,
        }
    }
}

} // verus!
