//! What a request asks for: the query parameters `EIO`, `transport` and
//! `sid`, the route they select, and the bodies of the error replies.

use crate::config::EngineIoConfig;
use crate::config::EngineVersion;
use crate::config::TransportType;
use crate::sid::Sid;
use crate::text::bytes_eq;
use crate::text::copy_range;
use crate::text::find_byte;
use crate::text::scan_to;
use vstd::prelude::*;
use vstd::slice::slice_subrange;

verus! {

/// `&`
pub const AMPERSAND: u8 = 38;

/// `=`
pub const EQUALS: u8 = 61;

/// The HTTP methods that the endpoint knows.
#[derive(Clone, Copy, Debug, PartialEq, Eq, Structural)]
pub enum Method {
    Get,
    Post,
}

/// One header of a reply.
#[derive(Clone, Debug, PartialEq, Eq)]
pub struct Header {
    pub name: Vec<u8>,
    pub value: Vec<u8>,
}

/// The contents of a list of headers.
pub open spec fn headers_view(headers: Seq<Header>) -> Seq<(Seq<u8>, Seq<u8>)> {
    Seq::new(headers.len(), |i: int| (headers[i].name@, headers[i].value@))
}

/// The header name `Access-Control-Allow-Origin`.
pub open spec fn allow_origin() -> Seq<u8> {
    seq![
        65u8, 99, 99, 101, 115, 115, 45, 67, 111, 110, 116, 114, 111, 108, 45, 65, 108, 108, 111,
        119, 45, 79, 114, 105, 103, 105, 110,
    ]
}

/// The header name `Access-Control-Allow-Credentials`.
pub open spec fn allow_credentials() -> Seq<u8> {
    seq![
        65u8, 99, 99, 101, 115, 115, 45, 67, 111, 110, 116, 114, 111, 108, 45, 65, 108, 108, 111,
        119, 45, 67, 114, 101, 100, 101, 110, 116, 105, 97, 108, 115,
    ]
}

/// The word `true`.
pub open spec fn word_true() -> Seq<u8> {
    seq![116u8, 114, 117, 101]
}

/// The cross-origin headers of a reply. With cross-origin access
/// switched off there are none. Otherwise the origin of the request is
/// echoed, or `*` where the request names none, and credentials are
/// allowed.
pub open spec fn cors_spec(enabled: bool, origin: Option<Seq<u8>>) -> Seq<(Seq<u8>, Seq<u8>)> {
    if enabled {
        seq![
            (
                allow_origin(),
                match origin {
                    Some(o) => o,
                    None => seq![42u8],
                },
            ),
            (allow_credentials(), word_true()),
        ]
    } else {
        Seq::empty()
    }
}

/// The status of the reply to a preflight request.
pub const PREFLIGHT_STATUS: u16 = 204;

/// Builds the cross-origin headers of a reply; see [`cors_spec`]. The
/// reply to a preflight `OPTIONS` request is these headers with status
/// [`PREFLIGHT_STATUS`] and no body.
pub fn cors_headers(enabled: bool, origin: Option<&[u8]>) -> (headers: Vec<Header>)
    ensures
        headers_view(headers@) == cors_spec(
            enabled,
            match origin {
                Some(o) => Some(o@),
                None => None,
            },
        ),
{
    let mut headers: Vec<Header> = Vec::new();
    if !enabled {
        assert(headers_view(headers@) =~= Seq::empty());
        return headers;
    }
    let name: Vec<u8> = vec![
        65u8, 99, 99, 101, 115, 115, 45, 67, 111, 110, 116, 114, 111, 108, 45, 65, 108, 108, 111,
        119, 45, 79, 114, 105, 103, 105, 110,
    ];
    assert(name@ =~= allow_origin());
    let value: Vec<u8> = match origin {
        Some(o) => {
            let v = copy_range(o, 0, o.len());
            assert(o@.subrange(0, o@.len() as int) == o@);
            v
        },
        None => {
            let v: Vec<u8> = vec![42u8];
            assert(v@ =~= seq![42u8]);
            v
        },
    };
    headers.push(Header { name, value });
    let name: Vec<u8> = vec![
        65u8, 99, 99, 101, 115, 115, 45, 67, 111, 110, 116, 114, 111, 108, 45, 65, 108, 108, 111,
        119, 45, 67, 114, 101, 100, 101, 110, 116, 105, 97, 108, 115,
    ];
    assert(name@ =~= allow_credentials());
    let value: Vec<u8> = vec![116u8, 114, 117, 101];
    assert(value@ =~= word_true());
    headers.push(Header { name, value });
    assert(headers_view(headers@) =~= cors_spec(
        enabled,
        match origin {
            Some(o) => Some(o@),
            None => None,
        },
    ));
    headers
}

/// Why a request is turned away. Each reason has the code that the
/// error body carries.
#[derive(Clone, Copy, Debug, PartialEq, Eq, Structural)]
pub enum RequestError {
    /// Code 0: `EIO` is missing or names no supported version, or
    /// `transport` is missing, names no transport, or names one that is
    /// switched off.
    UnknownTransport,
    /// Code 1: `sid` names no session.
    UnknownSid,
    /// Code 2: a handshake must be a GET.
    BadHandshakeMethod,
    /// Code 3: the request does not fit the state of its session.
    BadRequest,
    /// Code 4: the allow-request predicate said no.
    Forbidden,
}

/// What a request is routed to.
#[derive(Clone, Copy, Debug, PartialEq, Eq, Structural)]
pub enum Route {
    /// No `sid`: a new session on the given transport.
    Handshake(EngineVersion, TransportType),
    /// A request on the transport that the session uses.
    Session(Sid),
    /// A WebSocket for a session that uses long-polling: the upgrade.
    Upgrade(Sid),
}

/// The value of the parameter `key` in the part of `query` that begins
/// at `from`. The query is cut at every `&`; a piece counts when it is
/// `key`, then `=`, then the value. The first such piece wins.
pub open spec fn param_from(query: Seq<u8>, key: Seq<u8>, from: int) -> Option<Seq<u8>>
    decreases query.len() - from,
{
    if 0 <= from <= query.len() {
        let end = find_byte(query, AMPERSAND, from);
        let piece = query.subrange(from, end);
        if piece.len() > key.len() && piece.subrange(0, key.len() as int) == key
            && piece[key.len() as int] == EQUALS {
            Some(piece.subrange(key.len() as int + 1, piece.len() as int))
        } else if from <= end < query.len() {
            param_from(query, key, end + 1)
        } else {
            None
        }
    } else {
        None
    }
}

/// The value of the parameter `key` in `query`.
pub open spec fn param(query: Seq<u8>, key: Seq<u8>) -> Option<Seq<u8>> {
    param_from(query, key, 0)
}

/// The key `EIO`.
pub open spec fn key_eio() -> Seq<u8> {
    seq![69u8, 73, 79]
}

/// The key `transport`.
pub open spec fn key_transport() -> Seq<u8> {
    seq![116u8, 114, 97, 110, 115, 112, 111, 114, 116]
}

/// The key `sid`.
pub open spec fn key_sid() -> Seq<u8> {
    seq![115u8, 105, 100]
}

/// The word `polling`.
pub open spec fn word_polling() -> Seq<u8> {
    seq![112u8, 111, 108, 108, 105, 110, 103]
}

/// The word `websocket`.
pub open spec fn word_websocket() -> Seq<u8> {
    seq![119u8, 101, 98, 115, 111, 99, 107, 101, 116]
}

/// The protocol version that `EIO` names: `3` or `4`.
pub open spec fn version_of(value: Option<Seq<u8>>) -> Option<EngineVersion> {
    match value {
        Some(v) => if v == seq![51u8] {
            Some(EngineVersion::V3)
        } else if v == seq![52u8] {
            Some(EngineVersion::V4)
        } else {
            None
        },
        None => None,
    }
}

/// The transport that `transport` names: `polling` or `websocket`.
pub open spec fn transport_of(value: Option<Seq<u8>>) -> Option<TransportType> {
    match value {
        Some(v) => if v == word_polling() {
            Some(TransportType::Polling)
        } else if v == word_websocket() {
            Some(TransportType::Websocket)
        } else {
            None
        },
        None => None,
    }
}

/// Whether the configuration has `transport` switched on.
pub open spec fn allows(config: EngineIoConfig, transport: TransportType) -> bool {
    match transport {
        TransportType::Polling => config.polling,
        TransportType::Websocket => config.websocket,
    }
}

/// The code of an error.
pub open spec fn error_code(e: RequestError) -> u8 {
    match e {
        RequestError::UnknownTransport => 0,
        RequestError::UnknownSid => 1,
        RequestError::BadHandshakeMethod => 2,
        RequestError::BadRequest => 3,
        RequestError::Forbidden => 4,
    }
}

/// The message of an error: `Transport unknown`, `Session ID unknown`,
/// `Bad handshake method`, `Bad request` or `Forbidden`.
pub open spec fn error_message(e: RequestError) -> Seq<u8> {
    match e {
        RequestError::UnknownTransport => seq![
            84u8, 114, 97, 110, 115, 112, 111, 114, 116, 32, 117, 110, 107, 110, 111, 119, 110,
        ],
        RequestError::UnknownSid => seq![
            83u8, 101, 115, 115, 105, 111, 110, 32, 73, 68, 32, 117, 110, 107, 110, 111, 119, 110,
        ],
        RequestError::BadHandshakeMethod => seq![
            66u8, 97, 100, 32, 104, 97, 110, 100, 115, 104, 97, 107, 101, 32, 109, 101, 116, 104,
            111, 100,
        ],
        RequestError::BadRequest => seq![66u8, 97, 100, 32, 114, 101, 113, 117, 101, 115, 116],
        RequestError::Forbidden => seq![70u8, 111, 114, 98, 105, 100, 100, 101, 110],
    }
}

/// The body of an error reply: `{"code":<code>,"message":"<message>"}`.
pub open spec fn error_body(e: RequestError) -> Seq<u8> {
    seq![123u8, 34, 99, 111, 100, 101, 34, 58] + seq![(48 + error_code(e)) as u8] + seq![
        44u8, 34, 109, 101, 115, 115, 97, 103, 101, 34, 58, 34,
    ] + error_message(e)
        + seq![34u8, 125]
}

/// The HTTP status of an error reply: 403 when the request was
/// forbidden, 400 otherwise.
pub open spec fn error_status(e: RequestError) -> u16 {
    if e is Forbidden {
        403
    } else {
        400
    }
}

/// The parameters of a request that matter.
#[derive(Clone, Debug, PartialEq, Eq)]
pub struct Params {
    pub eio: Option<Vec<u8>>,
    pub transport: Option<Vec<u8>>,
    pub sid: Option<Vec<u8>>,
}

fn key_bytes(which: u8) -> (key: Vec<u8>)
    requires
        which < 3,
    ensures
        key@ == (if which == 0 {
            key_eio()
        } else if which == 1 {
            key_transport()
        } else {
            key_sid()
        }),
{
    if which == 0 {
        let key: Vec<u8> = vec![69u8, 73, 79];
        assert(key@ =~= key_eio());
        key
    } else if which == 1 {
        let key: Vec<u8> = vec![116u8, 114, 97, 110, 115, 112, 111, 114, 116];
        assert(key@ =~= key_transport());
        key
    } else {
        let key: Vec<u8> = vec![115u8, 105, 100];
        assert(key@ =~= key_sid());
        key
    }
}

/// Looks up the parameter `key` in `query`.
pub fn find_param(query: &[u8], key: &[u8]) -> (value: Option<Vec<u8>>)
    ensures
        match value {
            Some(v) => param(query@, key@) == Some(v@),
            None => param(query@, key@) is None,
        },
{
    let mut from: usize = 0;
    loop
        invariant
            from <= query.len(),
            param(query@, key@) == param_from(query@, key@, from as int),
        decreases query.len() - from,
    {
        let end = scan_to(query, AMPERSAND, from);
        let piece = slice_subrange(query, from, end);
        if piece.len() > key.len() && piece[key.len()] == EQUALS && bytes_eq(
            slice_subrange(piece, 0, key.len()),
            key,
        ) {
            return Some(copy_range(piece, key.len() + 1, piece.len()));
        }
        if end >= query.len() {
            return None;
        }
        from = end + 1;
    }
}

/// Reads the three parameters of a request.
pub fn parse_query(query: &[u8]) -> (params: Params)
    ensures
        bytes_opt(params.eio) == param(query@, key_eio()),
        bytes_opt(params.transport) == param(query@, key_transport()),
        bytes_opt(params.sid) == param(query@, key_sid()),
{
    let eio = key_bytes(0);
    let transport = key_bytes(1);
    let sid = key_bytes(2);
    Params {
        eio: find_param(query, eio.as_slice()),
        transport: find_param(query, transport.as_slice()),
        sid: find_param(query, sid.as_slice()),
    }
}

/// The contents of an optional byte string.
pub open spec fn bytes_opt(value: Option<Vec<u8>>) -> Option<Seq<u8>> {
    match value {
        Some(v) => Some(v@),
        None => None,
    }
}

/// Reads the protocol version from the value of `EIO`.
pub fn parse_version(value: &Option<Vec<u8>>) -> (version: Option<EngineVersion>)
    ensures
        version == version_of(bytes_opt(*value)),
{
    match value {
        Some(v) => {
            if v.len() == 1 && v[0] == 51 {
                assert(v@ =~= seq![51u8]);
                Some(EngineVersion::V3)
            } else if v.len() == 1 && v[0] == 52 {
                assert(v@ =~= seq![52u8]);
                Some(EngineVersion::V4)
            } else {
                None
            }
        },
        None => None,
    }
}

/// Reads the transport from the value of `transport`.
pub fn parse_transport(value: &Option<Vec<u8>>) -> (transport: Option<TransportType>)
    ensures
        transport == transport_of(bytes_opt(*value)),
{
    match value {
        Some(v) => {
            let polling: Vec<u8> = vec![112u8, 111, 108, 108, 105, 110, 103];
            let websocket: Vec<u8> = vec![119u8, 101, 98, 115, 111, 99, 107, 101, 116];
            assert(polling@ =~= word_polling());
            assert(websocket@ =~= word_websocket());
            if bytes_eq(v.as_slice(), polling.as_slice()) {
                Some(TransportType::Polling)
            } else if bytes_eq(v.as_slice(), websocket.as_slice()) {
                Some(TransportType::Websocket)
            } else {
                None
            }
        },
        None => None,
    }
}

impl RequestError {
    /// The code that the error body carries.
    pub fn code(&self) -> (code: u8)
        ensures
            code == error_code(*self),
    {
        match self {
            RequestError::UnknownTransport => 0,
            RequestError::UnknownSid => 1,
            RequestError::BadHandshakeMethod => 2,
            RequestError::BadRequest => 3,
            RequestError::Forbidden => 4,
        }
    }

    /// The HTTP status of the reply.
    pub fn status(&self) -> (status: u16)
        ensures
            status == error_status(*self),
    {
        match self {
            RequestError::Forbidden => 403,
            _ => 400,
        }
    }

    /// The body of the reply.
    pub fn body(&self) -> (body: Vec<u8>)
        ensures
            body@ == error_body(*self),
    {
        let mut out: Vec<u8> = vec![123u8, 34, 99, 111, 100, 101, 34, 58];
        out.push(48 + self.code());
        let mut part: Vec<u8> = vec![44u8, 34, 109, 101, 115, 115, 97, 103, 101, 34, 58, 34];
        out.append(&mut part);
        let mut message: Vec<u8> = match self {
            RequestError::UnknownTransport => vec![
                84u8, 114, 97, 110, 115, 112, 111, 114, 116, 32, 117, 110, 107, 110, 111, 119, 110,
            ],
            RequestError::UnknownSid => vec![
                83u8, 101, 115, 115, 105, 111, 110, 32, 73, 68, 32, 117, 110, 107, 110, 111, 119,
                110,
            ],
            RequestError::BadHandshakeMethod => vec![
                66u8, 97, 100, 32, 104, 97, 110, 100, 115, 104, 97, 107, 101, 32, 109, 101, 116,
                104, 111, 100,
            ],
            RequestError::BadRequest => vec![66u8, 97, 100, 32, 114, 101, 113, 117, 101, 115, 116],
            RequestError::Forbidden => vec![70u8, 111, 114, 98, 105, 100, 100, 101, 110],
        };
        assert(message@ =~= error_message(*self));
        out.append(&mut message);
        out.push(34);
        out.push(125);
        assert(out@ =~= error_body(*self));
        out
    }
}

} // verus!
