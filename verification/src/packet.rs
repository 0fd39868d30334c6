//! The Socket.IO packet and its string form
//! `<type>[<attachments>-][<namespace>,][<ack id>][<json>]`.
//!
//! JSON payloads travel as bytes. The codec frames them and asks
//! [`crate::json`] whether they are JSON; it never rewrites them.

use crate::errors::Error;
use crate::json::array_text;
use crate::json::is_json;
use crate::json::json_wellformed;
use crate::json::json_starts;
use crate::json::object_text;
use crate::json::string_text;
use crate::sid::Sid;
use crate::text::all_digits;
use crate::text::append;
use crate::text::copy_range;
use crate::text::decimal;
use crate::text::digits_end;
use crate::text::digits_value;
use crate::text::find_byte;
use crate::text::is_digit;
use crate::text::lemma_decimal_digits;
use crate::text::lemma_decimal_value;
use crate::text::lemma_digits_end_bounds;
use crate::text::lemma_digits_end_run;
use crate::text::lemma_find_byte_bounds;
use crate::text::lemma_find_byte_run;
use crate::text::parse_digits;
use crate::text::push_decimal;
use crate::text::scan_digits;
use crate::text::scan_to;
use vstd::prelude::*;

verus! {

/// Version of the Socket.IO protocol that a peer speaks.
#[derive(Clone, Copy, Debug, PartialEq, Eq, Structural)]
pub enum ProtocolVersion {
    V4,
    V5,
}

/// The JSON arguments of a binary event or ack, the attachments received
/// so far, and the number of attachments that the header declared.
#[derive(Clone, Debug, PartialEq, Eq)]
pub struct BinaryPacket {
    pub data: Vec<u8>,
    pub bin: Vec<Vec<u8>>,
    pub payload_count: usize,
}

/// What a packet carries, by packet type.
#[derive(Clone, Debug, PartialEq, Eq)]
pub enum PacketData {
    /// Type `0`; the optional payload is the auth object.
    Connect(Option<Vec<u8>>),
    /// Type `1`.
    Disconnect,
    /// Type `2`: an argument array and an optional ack id.
    Event(Vec<u8>, Option<u64>),
    /// Type `3`: an argument array and the ack id it answers.
    EventAck(Vec<u8>, u64),
    /// Type `4`: the error object, or an error string.
    ConnectError(Vec<u8>),
    /// Type `5`.
    BinaryEvent(BinaryPacket, Option<u64>),
    /// Type `6`.
    BinaryAck(BinaryPacket, u64),
}

/// A Socket.IO packet: its content and the namespace it belongs to.
#[derive(Clone, Debug, PartialEq, Eq)]
pub struct Packet {
    pub inner: PacketData,
    pub ns: Vec<u8>,
}

/// The contents of a [`BinaryPacket`].
pub struct BinaryPacketView {
    pub data: Seq<u8>,
    pub bin: Seq<Seq<u8>>,
    pub payload_count: nat,
}

/// The contents of [`PacketData`].
pub enum PacketDataView {
    Connect(Option<Seq<u8>>),
    Disconnect,
    Event(Seq<u8>, Option<u64>),
    EventAck(Seq<u8>, u64),
    ConnectError(Seq<u8>),
    BinaryEvent(BinaryPacketView, Option<u64>),
    BinaryAck(BinaryPacketView, u64),
}

/// The contents of a [`Packet`].
pub struct PacketView {
    pub inner: PacketDataView,
    pub ns: Seq<u8>,
}

/// The contents of a list of byte strings.
pub open spec fn frames_view(frames: Seq<Vec<u8>>) -> Seq<Seq<u8>> {
    Seq::new(frames.len(), |i: int| frames[i]@)
}

impl View for BinaryPacket {
    type V = BinaryPacketView;

    open spec fn view(&self) -> BinaryPacketView {
        BinaryPacketView {
            data: self.data@,
            bin: frames_view(self.bin@),
            payload_count: self.payload_count as nat,
        }
    }
}

impl View for PacketData {
    type V = PacketDataView;

    open spec fn view(&self) -> PacketDataView {
        match self {
            PacketData::Connect(None) => PacketDataView::Connect(None),
            PacketData::Connect(Some(auth)) => PacketDataView::Connect(Some(auth@)),
            PacketData::Disconnect => PacketDataView::Disconnect,
            PacketData::Event(data, ack) => PacketDataView::Event(data@, *ack),
            PacketData::EventAck(data, ack) => PacketDataView::EventAck(data@, *ack),
            PacketData::ConnectError(data) => PacketDataView::ConnectError(data@),
            PacketData::BinaryEvent(bin, ack) => PacketDataView::BinaryEvent(bin@, *ack),
            PacketData::BinaryAck(bin, ack) => PacketDataView::BinaryAck(bin@, *ack),
        }
    }
}

impl View for Packet {
    type V = PacketView;

    open spec fn view(&self) -> PacketView {
        PacketView { inner: self.inner@, ns: self.ns@ }
    }
}

/// `/`
pub const SLASH: u8 = 47;

/// `,`
pub const COMMA: u8 = 44;

/// `-`
pub const DASH: u8 = 45;

/// `"`
pub const QUOTE: u8 = 34;

/// `[`
pub const OPEN_BRACKET: u8 = 91;

/// `{`
pub const OPEN_BRACE: u8 = 123;

/// The path of the default namespace, `/`.
pub open spec fn root_ns() -> Seq<u8> {
    seq![SLASH]
}

/// The payload `{"message":"Invalid namespace"}` of the error that answers
/// a connect to an unknown namespace.
pub open spec fn invalid_namespace_text() -> Seq<u8> {
    seq![
        123u8, 34, 109, 101, 115, 115, 97, 103, 101, 34, 58, 34, 73, 110, 118, 97, 108, 105, 100,
        32, 110, 97, 109, 101, 115, 112, 97, 99, 101, 34, 125,
    ]
}

/// A namespace path that can be framed: it begins with `/` and holds no
/// comma.
pub open spec fn ns_ok(ns: Seq<u8>) -> bool {
    ns.len() > 0 && ns[0] == SLASH && !ns.contains(COMMA)
}

impl BinaryPacketView {
    /// All declared attachments have arrived.
    pub open spec fn is_complete(self) -> bool {
        self.bin.len() == self.payload_count
    }

    /// The packet after one more attachment arrived.
    pub open spec fn add_payload(self, payload: Seq<u8>) -> BinaryPacketView {
        BinaryPacketView { bin: self.bin.push(payload), ..self }
    }

    /// The packet as its header alone describes it: no attachment yet.
    pub open spec fn header(self) -> BinaryPacketView {
        BinaryPacketView { bin: Seq::empty(), ..self }
    }
}

impl PacketDataView {
    /// The type digit.
    pub open spec fn kind(self) -> u8 {
        match self {
            PacketDataView::Connect(_) => 48,
            PacketDataView::Disconnect => 49,
            PacketDataView::Event(_, _) => 50,
            PacketDataView::EventAck(_, _) => 51,
            PacketDataView::ConnectError(_) => 52,
            PacketDataView::BinaryEvent(_, _) => 53,
            PacketDataView::BinaryAck(_, _) => 54,
        }
    }

    /// Whether this is a binary event or a binary ack.
    pub open spec fn is_binary(self) -> bool {
        self is BinaryEvent || self is BinaryAck
    }

    /// The binary part of a binary event or ack.
    pub open spec fn binary(self) -> BinaryPacketView {
        match self {
            PacketDataView::BinaryEvent(bin, _) => bin,
            PacketDataView::BinaryAck(bin, _) => bin,
            _ => BinaryPacketView { data: Seq::empty(), bin: Seq::empty(), payload_count: 0 },
        }
    }

    /// The same content with another binary part; other packets are left
    /// as they are.
    pub open spec fn with_binary(self, bin: BinaryPacketView) -> PacketDataView {
        match self {
            PacketDataView::BinaryEvent(_, ack) => PacketDataView::BinaryEvent(bin, ack),
            PacketDataView::BinaryAck(_, ack) => PacketDataView::BinaryAck(bin, ack),
            other => other,
        }
    }

    /// The ack id, where the packet has one.
    pub open spec fn ack(self) -> Option<u64> {
        match self {
            PacketDataView::Event(_, ack) => ack,
            PacketDataView::EventAck(_, ack) => Some(ack),
            PacketDataView::BinaryEvent(_, ack) => ack,
            PacketDataView::BinaryAck(_, ack) => Some(ack),
            _ => None,
        }
    }

    /// The JSON payload; empty where the packet has none.
    pub open spec fn payload(self) -> Seq<u8> {
        match self {
            PacketDataView::Connect(Some(auth)) => auth,
            PacketDataView::Event(data, _) => data,
            PacketDataView::EventAck(data, _) => data,
            PacketDataView::ConnectError(data) => data,
            PacketDataView::BinaryEvent(bin, _) => bin.data,
            PacketDataView::BinaryAck(bin, _) => bin.data,
            _ => Seq::empty(),
        }
    }

    /// The payload is the JSON that the packet type asks for.
    pub open spec fn payload_ok(self) -> bool {
        match self {
            PacketDataView::Connect(None) => true,
            PacketDataView::Connect(Some(auth)) => object_text(auth),
            PacketDataView::Disconnect => true,
            PacketDataView::Event(data, _) => array_text(data),
            PacketDataView::EventAck(data, _) => array_text(data),
            PacketDataView::ConnectError(data) => object_text(data) || string_text(data),
            PacketDataView::BinaryEvent(bin, _) => array_text(bin.data),
            PacketDataView::BinaryAck(bin, _) => array_text(bin.data),
        }
    }

    /// The payload has the first byte that the packet type asks for, and
    /// is JSON where `json` says so.
    pub open spec fn payload_ok_given(self, json: bool) -> bool {
        match self {
            PacketDataView::Connect(None) => true,
            PacketDataView::Connect(Some(auth)) => starts(auth, OPEN_BRACE) && json,
            PacketDataView::Disconnect => true,
            PacketDataView::Event(data, _) => starts(data, OPEN_BRACKET) && json,
            PacketDataView::EventAck(data, _) => starts(data, OPEN_BRACKET) && json,
            PacketDataView::ConnectError(data) => (starts(data, OPEN_BRACE) || starts(
                data,
                QUOTE,
            )) && json,
            PacketDataView::BinaryEvent(bin, _) => starts(bin.data, OPEN_BRACKET) && json,
            PacketDataView::BinaryAck(bin, _) => starts(bin.data, OPEN_BRACKET) && json,
        }
    }

    /// A binary packet holds no more attachments than it declares, and
    /// the declared number is one that a machine can count to.
    pub open spec fn attachments_ok(self) -> bool {
        self.is_binary() ==> self.binary().bin.len() <= self.binary().payload_count <= usize::MAX
    }
}

impl PacketView {
    /// The packet can be encoded.
    pub open spec fn wf(self) -> bool {
        ns_ok(self.ns) && self.inner.payload_ok() && self.inner.attachments_ok()
    }

    /// The packet can be encoded, where `json` says whether its payload
    /// is JSON.
    pub open spec fn wf_given(self, json: bool) -> bool {
        ns_ok(self.ns) && self.inner.payload_ok_given(json) && self.inner.attachments_ok()
    }

    /// The error that encoding reports for a packet that is not
    /// well-formed, where `json` says whether its payload is JSON.
    pub open spec fn encode_error_given(self, json: bool) -> Error {
        if !ns_ok(self.ns) {
            Error::InvalidNamespace
        } else if !self.inner.payload_ok_given(json) {
            Error::InvalidJson
        } else {
            Error::TooManyAttachments
        }
    }

    /// The error that encoding reports for a packet that is not
    /// well-formed.
    pub open spec fn encode_error(self) -> Error {
        if !ns_ok(self.ns) {
            Error::InvalidNamespace
        } else if !self.inner.payload_ok() {
            Error::InvalidJson
        } else {
            Error::TooManyAttachments
        }
    }

    /// The packet as its string form alone describes it: a binary packet
    /// without its attachments.
    pub open spec fn header(self) -> PacketView {
        PacketView { inner: self.inner.with_binary(self.inner.binary().header()), ..self }
    }

    /// Every declared attachment is there.
    pub open spec fn is_complete(self) -> bool {
        self.inner.is_binary() ==> self.inner.binary().is_complete()
    }

    /// The same packet with other attachments; a packet that is not
    /// binary is left as it is.
    pub open spec fn with_attachments(self, bin: Seq<Seq<u8>>) -> PacketView {
        PacketView {
            inner: self.inner.with_binary(BinaryPacketView { bin, ..self.inner.binary() }),
            ..self
        }
    }

    /// The packet after one more attachment arrived.
    pub open spec fn add_payload(self, payload: Seq<u8>) -> PacketView {
        self.with_attachments(self.inner.binary().bin.push(payload))
    }

    /// A binary packet that still waits for attachments.
    pub open spec fn expects_more(self) -> bool {
        self.inner.is_binary() && self.inner.binary().bin.len() < self.inner.binary().payload_count
    }
}

/// The attachment count and its dash, for the binary packet types.
pub open spec fn count_text(inner: PacketDataView) -> Seq<u8> {
    if inner.is_binary() {
        decimal(inner.binary().payload_count).push(DASH)
    } else {
        Seq::empty()
    }
}

/// The namespace and its comma; nothing for the default namespace.
pub open spec fn ns_text(ns: Seq<u8>) -> Seq<u8> {
    if ns == root_ns() {
        Seq::empty()
    } else {
        ns.push(COMMA)
    }
}

/// The ack id in decimal, where there is one.
pub open spec fn ack_text(ack: Option<u64>) -> Seq<u8> {
    match ack {
        Some(id) => decimal(id as nat),
        None => Seq::empty(),
    }
}

/// The string form of a packet.
pub open spec fn encode_spec(p: PacketView) -> Seq<u8> {
    seq![p.inner.kind()] + count_text(p.inner) + ns_text(p.ns) + ack_text(p.inner.ack())
        + p.inner.payload()
}

/// Whether `kind` is the type digit of a binary event or a binary ack.
pub open spec fn is_binary_kind(kind: u8) -> bool {
    kind == 53 || kind == 54
}

/// Where the attachment count ends.
pub open spec fn count_end(s: Seq<u8>) -> int {
    if is_binary_kind(s[0]) {
        digits_end(s, 1)
    } else {
        1
    }
}

/// Where a namespace would begin.
pub open spec fn ns_start(s: Seq<u8>) -> int {
    if is_binary_kind(s[0]) {
        count_end(s) + 1
    } else {
        1
    }
}

/// A namespace follows unless the text ends here or goes on with an ack id
/// or a JSON array, object or string.
pub open spec fn has_ns(s: Seq<u8>) -> bool {
    let i = ns_start(s);
    i < s.len() && !is_digit(s[i]) && s[i] != OPEN_BRACKET && s[i] != OPEN_BRACE && s[i] != QUOTE
}

/// Where the namespace ends: at the first comma, or at the end.
pub open spec fn ns_end(s: Seq<u8>) -> int {
    if has_ns(s) {
        find_byte(s, COMMA, ns_start(s))
    } else {
        ns_start(s)
    }
}

/// Where an ack id would begin: behind the namespace and its comma.
pub open spec fn ack_start(s: Seq<u8>) -> int {
    if has_ns(s) && ns_end(s) < s.len() {
        ns_end(s) + 1
    } else {
        ns_end(s)
    }
}

/// Where the ack id ends and the payload begins.
pub open spec fn ack_end(s: Seq<u8>) -> int {
    digits_end(s, ack_start(s))
}

/// `data` begins with the byte `first`.
pub open spec fn starts(data: Seq<u8>, first: u8) -> bool {
    data.len() > 0 && data[0] == first
}

/// The packet that a type digit, an attachment count, a namespace, an ack
/// id and a payload make, or the reason why they make none, where `json`
/// says whether the payload is JSON.
pub open spec fn assemble_given(
    kind: u8,
    count: nat,
    ns: Seq<u8>,
    ack: Option<u64>,
    data: Seq<u8>,
    json: bool,
) -> Result<PacketView, Error> {
    let bin = BinaryPacketView { data, bin: Seq::empty(), payload_count: count };
    if kind == 48 {
        if ack is Some {
            Err(Error::InvalidPacketType)
        } else if data.len() == 0 {
            Ok(PacketView { inner: PacketDataView::Connect(None), ns })
        } else if starts(data, OPEN_BRACE) && json {
            Ok(PacketView { inner: PacketDataView::Connect(Some(data)), ns })
        } else {
            Err(Error::InvalidJson)
        }
    } else if kind == 49 {
        if ack is Some || data.len() > 0 {
            Err(Error::InvalidPacketType)
        } else {
            Ok(PacketView { inner: PacketDataView::Disconnect, ns })
        }
    } else if kind == 50 {
        if starts(data, OPEN_BRACKET) && json {
            Ok(PacketView { inner: PacketDataView::Event(data, ack), ns })
        } else {
            Err(Error::InvalidJson)
        }
    } else if kind == 51 {
        if ack is None {
            Err(Error::InvalidPacketType)
        } else if starts(data, OPEN_BRACKET) && json {
            Ok(PacketView { inner: PacketDataView::EventAck(data, ack->0), ns })
        } else {
            Err(Error::InvalidJson)
        }
    } else if kind == 52 {
        if ack is Some {
            Err(Error::InvalidPacketType)
        } else if (starts(data, OPEN_BRACE) || starts(data, QUOTE)) && json {
            Ok(PacketView { inner: PacketDataView::ConnectError(data), ns })
        } else {
            Err(Error::InvalidJson)
        }
    } else if kind == 53 {
        if starts(data, OPEN_BRACKET) && json {
            Ok(PacketView { inner: PacketDataView::BinaryEvent(bin, ack), ns })
        } else {
            Err(Error::InvalidJson)
        }
    } else if kind == 54 {
        if ack is None {
            Err(Error::InvalidPacketType)
        } else if starts(data, OPEN_BRACKET) && json {
            Ok(PacketView { inner: PacketDataView::BinaryAck(bin, ack->0), ns })
        } else {
            Err(Error::InvalidJson)
        }
    } else {
        Err(Error::InvalidPacketType)
    }
}

/// The packet that a type digit, an attachment count, a namespace, an ack
/// id and a payload make, or the reason why they make none.
pub open spec fn assemble_spec(
    kind: u8,
    count: nat,
    ns: Seq<u8>,
    ack: Option<u64>,
    data: Seq<u8>,
) -> Result<PacketView, Error> {
    let bin = BinaryPacketView { data, bin: Seq::empty(), payload_count: count };
    if kind == 48 {
        if ack is Some {
            Err(Error::InvalidPacketType)
        } else if data.len() == 0 {
            Ok(PacketView { inner: PacketDataView::Connect(None), ns })
        } else if object_text(data) {
            Ok(PacketView { inner: PacketDataView::Connect(Some(data)), ns })
        } else {
            Err(Error::InvalidJson)
        }
    } else if kind == 49 {
        if ack is Some || data.len() > 0 {
            Err(Error::InvalidPacketType)
        } else {
            Ok(PacketView { inner: PacketDataView::Disconnect, ns })
        }
    } else if kind == 50 {
        if array_text(data) {
            Ok(PacketView { inner: PacketDataView::Event(data, ack), ns })
        } else {
            Err(Error::InvalidJson)
        }
    } else if kind == 51 {
        if ack is None {
            Err(Error::InvalidPacketType)
        } else if array_text(data) {
            Ok(PacketView { inner: PacketDataView::EventAck(data, ack->0), ns })
        } else {
            Err(Error::InvalidJson)
        }
    } else if kind == 52 {
        if ack is Some {
            Err(Error::InvalidPacketType)
        } else if object_text(data) || string_text(data) {
            Ok(PacketView { inner: PacketDataView::ConnectError(data), ns })
        } else {
            Err(Error::InvalidJson)
        }
    } else if kind == 53 {
        if array_text(data) {
            Ok(PacketView { inner: PacketDataView::BinaryEvent(bin, ack), ns })
        } else {
            Err(Error::InvalidJson)
        }
    } else if kind == 54 {
        if ack is None {
            Err(Error::InvalidPacketType)
        } else if array_text(data) {
            Ok(PacketView { inner: PacketDataView::BinaryAck(bin, ack->0), ns })
        } else {
            Err(Error::InvalidJson)
        }
    } else {
        Err(Error::InvalidPacketType)
    }
}

/// The payload of a string form: what stands behind the ack id.
pub open spec fn payload_of(s: Seq<u8>) -> Seq<u8> {
    s.subrange(ack_end(s), s.len() as int)
}

/// The packet that a string form denotes, or the reason why it denotes
/// none, where `json` says whether its payload is JSON.
pub open spec fn decode_given(s: Seq<u8>, json: bool) -> Result<PacketView, Error> {
    if s.len() == 0 || s[0] < 48 || s[0] > 54 {
        Err(Error::InvalidPacketType)
    } else if is_binary_kind(s[0]) && (count_end(s) == 1 || count_end(s) >= s.len()
        || s[count_end(s)] != DASH || digits_value(s.subrange(1, count_end(s))) > usize::MAX) {
        Err(Error::InvalidPacketType)
    } else if has_ns(s) && s[ns_start(s)] != SLASH {
        Err(Error::InvalidNamespace)
    } else if digits_value(s.subrange(ack_start(s), ack_end(s))) > u64::MAX {
        Err(Error::InvalidPacketType)
    } else {
        assemble_given(
            s[0],
            if is_binary_kind(s[0]) {
                digits_value(s.subrange(1, count_end(s)))
            } else {
                0
            },
            if has_ns(s) {
                s.subrange(ns_start(s), ns_end(s))
            } else {
                root_ns()
            },
            if ack_end(s) > ack_start(s) {
                Some(digits_value(s.subrange(ack_start(s), ack_end(s))) as u64)
            } else {
                None
            },
            payload_of(s),
            json,
        )
    }
}

/// The packet that a string form denotes, or the reason why it denotes
/// none.
pub open spec fn decode_spec(s: Seq<u8>) -> Result<PacketView, Error> {
    if s.len() == 0 || s[0] < 48 || s[0] > 54 {
        Err(Error::InvalidPacketType)
    } else if is_binary_kind(s[0]) && (count_end(s) == 1 || count_end(s) >= s.len()
        || s[count_end(s)] != DASH || digits_value(s.subrange(1, count_end(s))) > usize::MAX) {
        Err(Error::InvalidPacketType)
    } else if has_ns(s) && s[ns_start(s)] != SLASH {
        Err(Error::InvalidNamespace)
    } else if digits_value(s.subrange(ack_start(s), ack_end(s))) > u64::MAX {
        Err(Error::InvalidPacketType)
    } else {
        assemble_spec(
            s[0],
            if is_binary_kind(s[0]) {
                digits_value(s.subrange(1, count_end(s)))
            } else {
                0
            },
            if has_ns(s) {
                s.subrange(ns_start(s), ns_end(s))
            } else {
                root_ns()
            },
            if ack_end(s) > ack_start(s) {
                Some(digits_value(s.subrange(ack_start(s), ack_end(s))) as u64)
            } else {
                None
            },
            s.subrange(ack_end(s), s.len() as int),
        )
    }
}

/// The payload `{"sid":"<sid>"}` with which a connect is acknowledged.
pub open spec fn connect_payload(sid: Sid) -> Seq<u8> {
    seq![123u8, 34, 115, 105, 100, 34, 58, 34] + sid.text() + seq![34u8, 125]
}

/// The codec with the parser's verdict handed in is the codec that asks
/// the parser: decoding asks about the payload of the string form,
/// encoding about the payload of the packet.
pub proof fn lemma_verdict(s: Seq<u8>, p: PacketView)
    ensures
        decode_spec(s) == decode_given(s, json_wellformed(payload_of(s))),
        p.inner.payload_ok() == p.inner.payload_ok_given(json_wellformed(p.inner.payload())),
        p.wf() == p.wf_given(json_wellformed(p.inner.payload())),
        p.encode_error() == p.encode_error_given(json_wellformed(p.inner.payload())),
{
}

/// Encoding and then decoding a well-formed packet gives the packet back,
/// less the attachments, which travel in frames of their own.
pub proof fn lemma_decode_encode(p: PacketView)
    requires
        p.wf(),
    ensures
        decode_spec(encode_spec(p)) == Ok::<PacketView, Error>(p.header()),
{
    let json = json_wellformed(p.inner.payload());
    lemma_verdict(encode_spec(p), p);
    lemma_decode_encode_given(p, json);
}

/// The same with the parser's verdict handed in: whatever the verdict, a
/// packet that can be encoded under it decodes under it to the packet
/// again, and the payload of its string form is its payload.
pub proof fn lemma_decode_encode_given(p: PacketView, json: bool)
    requires
        p.wf_given(json),
    ensures
        decode_given(encode_spec(p), json) == Ok::<PacketView, Error>(p.header()),
        payload_of(encode_spec(p)) == p.inner.payload(),
{
    let s = encode_spec(p);
    let head = seq![p.inner.kind()];
    let ct = count_text(p.inner);
    let nt = ns_text(p.ns);
    let at = ack_text(p.inner.ack());
    let data = p.inner.payload();
    let a = 1 + ct.len();
    let b = a + nt.len();
    let c = b + at.len();
    assert(s == head + ct + nt + at + data);
    assert(s.len() == c + data.len());
    assert(s[0] == p.inner.kind());
    assert(s.subrange(1, a as int) =~= ct);
    assert(s.subrange(a as int, b as int) =~= nt);
    assert(s.subrange(b as int, c as int) =~= at);
    assert(s.subrange(c as int, s.len() as int) =~= data);
    assert(data.len() > 0 ==> data[0] == OPEN_BRACKET || data[0] == OPEN_BRACE || data[0]
        == QUOTE);
    assert(data.len() > 0 ==> s[c as int] == data[0]);
    // the attachment count
    if p.inner.is_binary() {
        let n = p.inner.binary().payload_count;
        lemma_decimal_digits(n);
        lemma_decimal_value(n);
        assert(s.subrange(1, a - 1) =~= decimal(n));
        assert(s[a - 1] == ct[ct.len() - 1]);
        lemma_digits_end_run(s, 1, a - 1);
        assert(count_end(s) == a - 1);
    }
    assert(ns_start(s) == a);
    // the namespace
    match p.inner.ack() {
        Some(id) => {
            lemma_decimal_digits(id as nat);
            lemma_decimal_value(id as nat);
            assert(is_digit(at[0]));
            assert(s[b as int] == at[0]);
        },
        None => {},
    }
    if p.ns == root_ns() {
        assert(!has_ns(s));
    } else {
        assert(s[a as int] == nt[0]);
        assert(nt[0] == p.ns[0]);
        assert(has_ns(s));
        assert(s.subrange(a as int, b - 1) =~= p.ns);
        assert(s[b - 1] == nt[nt.len() - 1]);
        lemma_find_byte_run(s, COMMA, a as int, b - 1);
        assert(ns_end(s) == b - 1);
    }
    assert(ack_start(s) == b);
    // the ack id
    assert(all_digits(s.subrange(b as int, c as int)));
    lemma_digits_end_run(s, b as int, c as int);
    assert(ack_end(s) == c);
    if p.inner.ack() is None {
        assert(s.subrange(b as int, c as int).len() == 0);
    }
    assert(p.ns != root_ns() ==> s.subrange(ns_start(s), ns_end(s)) == p.ns);
    let ns = if has_ns(s) {
        s.subrange(ns_start(s), ns_end(s))
    } else {
        root_ns()
    };
    assert(ns == p.ns);
    let count = if is_binary_kind(s[0]) {
        digits_value(s.subrange(1, count_end(s)))
    } else {
        0
    };
    assert(p.inner.is_binary() ==> count == p.inner.binary().payload_count);
    let ack = if ack_end(s) > ack_start(s) {
        Some(digits_value(s.subrange(ack_start(s), ack_end(s))) as u64)
    } else {
        None
    };
    assert(ack == p.inner.ack());
    assert(payload_of(s) == data);
    assert(assemble_given(s[0], count, ns, ack, data, json) == Ok::<PacketView, Error>(
        p.header(),
    ));
}

fn begins(data: &[u8], first: u8) -> (yes: bool)
    ensures
        yes == starts(data@, first),
{
    data.len() > 0 && data[0] == first
}

/// Makes a packet of its parts, given the parser's verdict `json` on the
/// payload; see [`assemble_given`].
pub fn assemble_with(
    kind: u8,
    count: usize,
    ns: Vec<u8>,
    ack: Option<u64>,
    data: Vec<u8>,
    json: bool,
) -> (r: Result<Packet, Error>)
    ensures
        match r {
            Ok(p) => assemble_given(kind, count as nat, ns@, ack, data@, json) == Ok::<
                PacketView,
                Error,
            >(p@),
            Err(e) => assemble_given(kind, count as nat, ns@, ack, data@, json) == Err::<
                PacketView,
                Error,
            >(e),
        },
{
    if kind == 48 {
        if ack.is_some() {
            Err(Error::InvalidPacketType)
        } else if data.len() == 0 {
            Ok(Packet { inner: PacketData::Connect(None), ns })
        } else if begins(data.as_slice(), OPEN_BRACE) && json {
            Ok(Packet { inner: PacketData::Connect(Some(data)), ns })
        } else {
            Err(Error::InvalidJson)
        }
    } else if kind == 49 {
        if ack.is_some() || data.len() > 0 {
            Err(Error::InvalidPacketType)
        } else {
            Ok(Packet { inner: PacketData::Disconnect, ns })
        }
    } else if kind == 50 {
        if begins(data.as_slice(), OPEN_BRACKET) && json {
            Ok(Packet { inner: PacketData::Event(data, ack), ns })
        } else {
            Err(Error::InvalidJson)
        }
    } else if kind == 51 {
        match ack {
            None => Err(Error::InvalidPacketType),
            Some(id) => if begins(data.as_slice(), OPEN_BRACKET) && json {
                Ok(Packet { inner: PacketData::EventAck(data, id), ns })
            } else {
                Err(Error::InvalidJson)
            },
        }
    } else if kind == 52 {
        if ack.is_some() {
            Err(Error::InvalidPacketType)
        } else if (begins(data.as_slice(), OPEN_BRACE) || begins(data.as_slice(), QUOTE)) && json {
            Ok(Packet { inner: PacketData::ConnectError(data), ns })
        } else {
            Err(Error::InvalidJson)
        }
    } else if kind == 53 {
        if begins(data.as_slice(), OPEN_BRACKET) && json {
            let bin = BinaryPacket::incoming(data, count);
            Ok(Packet { inner: PacketData::BinaryEvent(bin, ack), ns })
        } else {
            Err(Error::InvalidJson)
        }
    } else if kind == 54 {
        match ack {
            None => Err(Error::InvalidPacketType),
            Some(id) => if begins(data.as_slice(), OPEN_BRACKET) && json {
                let bin = BinaryPacket::incoming(data, count);
                Ok(Packet { inner: PacketData::BinaryAck(bin, id), ns })
            } else {
                Err(Error::InvalidJson)
            },
        }
    } else {
        Err(Error::InvalidPacketType)
    }
}

fn assemble(kind: u8, count: usize, ns: Vec<u8>, ack: Option<u64>, data: Vec<u8>) -> (r: Result<
    Packet,
    Error,
>)
    ensures
        match r {
            Ok(p) => assemble_spec(kind, count as nat, ns@, ack, data@) == Ok::<PacketView, Error>(
                p@,
            ),
            Err(e) => assemble_spec(kind, count as nat, ns@, ack, data@) == Err::<
                PacketView,
                Error,
            >(e),
        },
{
    let json = data.len() > 0 && is_json(data.as_slice());
    assemble_with(kind, count, ns, ack, data, json)
}

fn copy_bytes(bytes: &Vec<u8>) -> (copy: Vec<u8>)
    ensures
        copy@ == bytes@,
{
    let copy = copy_range(bytes.as_slice(), 0, bytes.len());
    assert(bytes@.subrange(0, bytes@.len() as int) == bytes@);
    copy
}

impl BinaryPacket {
    /// The binary part of a packet whose header just arrived: the JSON
    /// arguments and the number of attachments to wait for.
    pub fn incoming(data: Vec<u8>, payload_count: usize) -> (bin: BinaryPacket)
        ensures
            bin@ == (BinaryPacketView {
                data: data@,
                bin: Seq::empty(),
                payload_count: payload_count as nat,
            }),
    {
        let bin = BinaryPacket { data, bin: Vec::new(), payload_count };
        assert(bin@.bin =~= Seq::empty());
        bin
    }

    /// The binary part of a packet to send: it declares as many
    /// attachments as it holds.
    pub fn outgoing(data: Vec<u8>, bin: Vec<Vec<u8>>) -> (out: BinaryPacket)
        ensures
            out@ == (BinaryPacketView {
                data: data@,
                bin: frames_view(bin@),
                payload_count: bin@.len(),
            }),
            out@.is_complete(),
    {
        let payload_count = bin.len();
        BinaryPacket { data, bin, payload_count }
    }

    /// Stores one more attachment.
    pub fn add_payload(&mut self, payload: Vec<u8>)
        ensures
            final(self)@ == old(self)@.add_payload(payload@),
    {
        self.bin.push(payload);
        assert(self@.bin =~= old(self)@.bin.push(payload@));
    }

    /// A copy of the binary part.
    pub fn duplicate(&self) -> (copy: BinaryPacket)
        ensures
            copy@ == self@,
    {
        let mut bin: Vec<Vec<u8>> = Vec::new();
        let mut i: usize = 0;
        while i < self.bin.len()
            invariant
                i <= self.bin.len(),
                frames_view(bin@) == frames_view(self.bin@).take(i as int),
            decreases self.bin.len() - i,
        {
            let ghost sofar = frames_view(bin@);
            bin.push(copy_bytes(&self.bin[i]));
            assert(frames_view(bin@) =~= sofar.push(self.bin@[i as int]@));
            assert(frames_view(self.bin@).take(i + 1) =~= frames_view(self.bin@).take(
                i as int,
            ).push(self.bin@[i as int]@));
            i += 1;
        }
        assert(frames_view(self.bin@).take(self.bin.len() as int) =~= frames_view(self.bin@));
        BinaryPacket { data: copy_bytes(&self.data), bin, payload_count: self.payload_count }
    }

    /// Whether every declared attachment has arrived.
    pub fn is_complete(&self) -> (done: bool)
        ensures
            done == self@.is_complete(),
    {
        self.payload_count == self.bin.len()
    }
}

impl PacketData {
    fn payload_ok(&self) -> (ok: bool)
        ensures
            ok == self@.payload_ok(),
    {
        match self {
            PacketData::Connect(None) => true,
            PacketData::Connect(Some(auth)) => json_starts(auth.as_slice(), OPEN_BRACE),
            PacketData::Disconnect => true,
            PacketData::Event(data, _) => json_starts(data.as_slice(), OPEN_BRACKET),
            PacketData::EventAck(data, _) => json_starts(data.as_slice(), OPEN_BRACKET),
            PacketData::ConnectError(data) => json_starts(data.as_slice(), OPEN_BRACE)
                || json_starts(data.as_slice(), QUOTE),
            PacketData::BinaryEvent(bin, _) => json_starts(bin.data.as_slice(), OPEN_BRACKET),
            PacketData::BinaryAck(bin, _) => json_starts(bin.data.as_slice(), OPEN_BRACKET),
        }
    }

    fn payload_ok_with(&self, json: bool) -> (ok: bool)
        ensures
            ok == self@.payload_ok_given(json),
    {
        match self {
            PacketData::Connect(None) => true,
            PacketData::Connect(Some(auth)) => begins(auth.as_slice(), OPEN_BRACE) && json,
            PacketData::Disconnect => true,
            PacketData::Event(data, _) => begins(data.as_slice(), OPEN_BRACKET) && json,
            PacketData::EventAck(data, _) => begins(data.as_slice(), OPEN_BRACKET) && json,
            PacketData::ConnectError(data) => (begins(data.as_slice(), OPEN_BRACE) || begins(
                data.as_slice(),
                QUOTE,
            )) && json,
            PacketData::BinaryEvent(bin, _) => begins(bin.data.as_slice(), OPEN_BRACKET) && json,
            PacketData::BinaryAck(bin, _) => begins(bin.data.as_slice(), OPEN_BRACKET) && json,
        }
    }

    fn attachments_ok(&self) -> (ok: bool)
        ensures
            ok == self@.attachments_ok(),
    {
        match self {
            PacketData::BinaryEvent(bin, _) => bin.bin.len() <= bin.payload_count,
            PacketData::BinaryAck(bin, _) => bin.bin.len() <= bin.payload_count,
            _ => true,
        }
    }

    /// A copy of the content.
    pub fn duplicate(&self) -> (copy: PacketData)
        ensures
            copy@ == self@,
    {
        match self {
            PacketData::Connect(None) => PacketData::Connect(None),
            PacketData::Connect(Some(auth)) => PacketData::Connect(Some(copy_bytes(auth))),
            PacketData::Disconnect => PacketData::Disconnect,
            PacketData::Event(data, ack) => PacketData::Event(copy_bytes(data), *ack),
            PacketData::EventAck(data, ack) => PacketData::EventAck(copy_bytes(data), *ack),
            PacketData::ConnectError(data) => PacketData::ConnectError(copy_bytes(data)),
            PacketData::BinaryEvent(bin, ack) => PacketData::BinaryEvent(bin.duplicate(), *ack),
            PacketData::BinaryAck(bin, ack) => PacketData::BinaryAck(bin.duplicate(), *ack),
        }
    }

    /// Whether this is a binary event or a binary ack.
    pub fn is_binary(&self) -> (binary: bool)
        ensures
            binary == self@.is_binary(),
    {
        match self {
            PacketData::BinaryEvent(_, _) => true,
            PacketData::BinaryAck(_, _) => true,
            _ => false,
        }
    }
}

/// Whether `ns` begins with `/` and holds no comma.
pub fn check_ns(ns: &[u8]) -> (ok: bool)
    ensures
        ok == ns_ok(ns@),
{
    if ns.len() == 0 || ns[0] != SLASH {
        return false;
    }
    let end = scan_to(ns, COMMA, 0);
    proof {
        lemma_find_byte_bounds(ns@, COMMA, 0);
        if end == ns.len() {
            assert(ns@.subrange(0, end as int) == ns@);
        }
    }
    end == ns.len()
}

/// Whether `ns` is the default namespace `/`.
pub fn is_root_ns(ns: &[u8]) -> (root: bool)
    ensures
        root == (ns@ == root_ns()),
{
    let root = ns.len() == 1 && ns[0] == SLASH;
    proof {
        if root {
            assert(ns@ =~= root_ns());
        }
    }
    root
}

impl Packet {
    /// The acknowledgement of a connect to `ns`. A version 5 peer is told
    /// the socket id; a version 4 peer gets the bare packet.
    pub fn connect(ns: Vec<u8>, sid: Sid, protocol: ProtocolVersion) -> (p: Packet)
        ensures
            p@.ns == ns@,
            p@.inner == (match protocol {
                ProtocolVersion::V4 => PacketDataView::Connect(None),
                ProtocolVersion::V5 => PacketDataView::Connect(Some(connect_payload(sid))),
            }),
    {
        match protocol {
            ProtocolVersion::V4 => Packet { inner: PacketData::Connect(None), ns },
            ProtocolVersion::V5 => {
                let mut payload: Vec<u8> = vec![123u8, 34, 115, 105, 100, 34, 58, 34];
                let text = sid.to_text();
                append(&mut payload, text.as_slice());
                payload.push(34);
                payload.push(125);
                assert(payload@ =~= connect_payload(sid));
                Packet { inner: PacketData::Connect(Some(payload)), ns }
            },
        }
    }

    /// The answer to a connect that names a namespace nobody registered.
    pub fn invalid_namespace(ns: Vec<u8>) -> (p: Packet)
        ensures
            p@ == (PacketView {
                inner: PacketDataView::ConnectError(invalid_namespace_text()),
                ns: ns@,
            }),
    {
        let payload: Vec<u8> = vec![
            123u8, 34, 109, 101, 115, 115, 97, 103, 101, 34, 58, 34, 73, 110, 118, 97, 108, 105,
            100, 32, 110, 97, 109, 101, 115, 112, 97, 99, 101, 34, 125,
        ];
        assert(payload@ =~= invalid_namespace_text());
        Packet { inner: PacketData::ConnectError(payload), ns }
    }

    /// Whether this is a binary packet that still waits for attachments.
    pub fn expects_more(&self) -> (more: bool)
        ensures
            more == self@.expects_more(),
    {
        match &self.inner {
            PacketData::BinaryEvent(bin, _) => bin.bin.len() < bin.payload_count,
            PacketData::BinaryAck(bin, _) => bin.bin.len() < bin.payload_count,
            _ => false,
        }
    }

    /// Stores one more attachment in a binary packet; any other packet is
    /// left as it is.
    pub fn add_payload(self, payload: Vec<u8>) -> (p: Packet)
        ensures
            p@ == self@.add_payload(payload@),
    {
        match self {
            Packet { inner: PacketData::BinaryEvent(mut bin, ack), ns } => {
                bin.add_payload(payload);
                Packet { inner: PacketData::BinaryEvent(bin, ack), ns }
            },
            Packet { inner: PacketData::BinaryAck(mut bin, ack), ns } => {
                bin.add_payload(payload);
                Packet { inner: PacketData::BinaryAck(bin, ack), ns }
            },
            other => other,
        }
    }

    /// A disconnect of the socket in `ns`.
    pub fn disconnect(ns: Vec<u8>) -> (p: Packet)
        ensures
            p@ == (PacketView { inner: PacketDataView::Disconnect, ns: ns@ }),
    {
        Packet { inner: PacketData::Disconnect, ns }
    }

    /// The string form of the packet.
    ///
    /// Fails with `InvalidNamespace` when the namespace cannot be framed,
    /// with `InvalidJson` when the payload is not the JSON that the type
    /// asks for, and with `TooManyAttachments` when a binary packet holds
    /// more attachments than it declares. What it returns decodes to the
    /// packet again.
    pub fn encode(&self) -> (r: Result<Vec<u8>, Error>)
        ensures
            match r {
                Ok(bytes) => self@.wf() && bytes@ == encode_spec(self@) && decode_spec(bytes@)
                    == Ok::<PacketView, Error>(self@.header()),
                Err(e) => !self@.wf() && e == self@.encode_error(),
            },
    {
        self.encode_core(None)
    }

    /// The string form of the packet, given the parser's verdict `json`
    /// on its payload. It is [`Packet::encode`] with the parser's answer
    /// handed in: it fails with `InvalidJson` exactly when the payload
    /// lacks the first byte that the type asks for or `json` is false.
    pub fn encode_with(&self, json: bool) -> (r: Result<Vec<u8>, Error>)
        ensures
            match r {
                Ok(bytes) => self@.wf_given(json) && bytes@ == encode_spec(self@) && decode_given(
                    bytes@,
                    json,
                ) == Ok::<PacketView, Error>(self@.header()),
                Err(e) => !self@.wf_given(json) && e == self@.encode_error_given(json),
            },
    {
        self.encode_core(Some(json))
    }

    fn encode_core(&self, verdict: Option<bool>) -> (r: Result<Vec<u8>, Error>)
        ensures
            match verdict {
                None => match r {
                    Ok(bytes) => self@.wf() && bytes@ == encode_spec(self@) && decode_spec(bytes@)
                        == Ok::<PacketView, Error>(self@.header()),
                    Err(e) => !self@.wf() && e == self@.encode_error(),
                },
                Some(json) => match r {
                    Ok(bytes) => self@.wf_given(json) && bytes@ == encode_spec(self@)
                        && decode_given(bytes@, json) == Ok::<PacketView, Error>(self@.header()),
                    Err(e) => !self@.wf_given(json) && e == self@.encode_error_given(json),
                },
            },
    {
        if !check_ns(self.ns.as_slice()) {
            return Err(Error::InvalidNamespace);
        }
        let fine = match verdict {
            Some(json) => self.inner.payload_ok_with(json),
            None => self.inner.payload_ok(),
        };
        if !fine {
            return Err(Error::InvalidJson);
        }
        if !self.inner.attachments_ok() {
            return Err(Error::TooManyAttachments);
        }
        let mut out: Vec<u8> = Vec::new();
        match &self.inner {
            PacketData::Connect(_) => out.push(48),
            PacketData::Disconnect => out.push(49),
            PacketData::Event(_, _) => out.push(50),
            PacketData::EventAck(_, _) => out.push(51),
            PacketData::ConnectError(_) => out.push(52),
            PacketData::BinaryEvent(bin, _) => {
                out.push(53);
                push_decimal(&mut out, bin.payload_count as u64);
                out.push(DASH);
            },
            PacketData::BinaryAck(bin, _) => {
                out.push(54);
                push_decimal(&mut out, bin.payload_count as u64);
                out.push(DASH);
            },
        }
        assert(out@ =~= seq![self@.inner.kind()] + count_text(self@.inner));
        if !is_root_ns(self.ns.as_slice()) {
            append(&mut out, self.ns.as_slice());
            out.push(COMMA);
        }
        assert(out@ =~= seq![self@.inner.kind()] + count_text(self@.inner) + ns_text(self@.ns));
        match &self.inner {
            PacketData::Event(_, Some(id)) => push_decimal(&mut out, *id),
            PacketData::EventAck(_, id) => push_decimal(&mut out, *id),
            PacketData::BinaryEvent(_, Some(id)) => push_decimal(&mut out, *id),
            PacketData::BinaryAck(_, id) => push_decimal(&mut out, *id),
            _ => {},
        }
        assert(out@ =~= seq![self@.inner.kind()] + count_text(self@.inner) + ns_text(self@.ns)
            + ack_text(self@.inner.ack()));
        match &self.inner {
            PacketData::Connect(Some(auth)) => append(&mut out, auth.as_slice()),
            PacketData::Event(data, _) => append(&mut out, data.as_slice()),
            PacketData::EventAck(data, _) => append(&mut out, data.as_slice()),
            PacketData::ConnectError(data) => append(&mut out, data.as_slice()),
            PacketData::BinaryEvent(bin, _) => append(&mut out, bin.data.as_slice()),
            PacketData::BinaryAck(bin, _) => append(&mut out, bin.data.as_slice()),
            _ => {},
        }
        assert(out@ =~= encode_spec(self@));
        proof {
            match verdict {
                Some(json) => lemma_decode_encode_given(self@, json),
                None => lemma_decode_encode(self@),
            }
        }
        Ok(out)
    }

    /// Reads a packet from its string form.
    ///
    /// The result is exactly [`decode_spec`]: `InvalidPacketType` for a
    /// bad type digit, attachment count or ack id, or for an ack id or a
    /// payload where the type admits none; `InvalidNamespace` for a
    /// namespace without its leading `/`; `InvalidJson` for a payload that
    /// is not the JSON the type asks for.
    pub fn decode(s: &[u8]) -> (r: Result<Packet, Error>)
        ensures
            match r {
                Ok(p) => decode_spec(s@) == Ok::<PacketView, Error>(p@),
                Err(e) => decode_spec(s@) == Err::<PacketView, Error>(e),
            },
    {
        Self::decode_core(s, None)
    }

    /// Reads a packet from its string form, given the parser's verdict
    /// `json` on its payload. It is [`Packet::decode`] with the parser's
    /// answer handed in; the result is exactly [`decode_given`].
    pub fn decode_with(s: &[u8], json: bool) -> (r: Result<Packet, Error>)
        ensures
            match r {
                Ok(p) => decode_given(s@, json) == Ok::<PacketView, Error>(p@),
                Err(e) => decode_given(s@, json) == Err::<PacketView, Error>(e),
            },
    {
        Self::decode_core(s, Some(json))
    }

    fn decode_core(s: &[u8], verdict: Option<bool>) -> (r: Result<Packet, Error>)
        ensures
            match verdict {
                None => match r {
                    Ok(p) => decode_spec(s@) == Ok::<PacketView, Error>(p@),
                    Err(e) => decode_spec(s@) == Err::<PacketView, Error>(e),
                },
                Some(json) => match r {
                    Ok(p) => decode_given(s@, json) == Ok::<PacketView, Error>(p@),
                    Err(e) => decode_given(s@, json) == Err::<PacketView, Error>(e),
                },
            },
    {
        if s.len() == 0 {
            return Err(Error::InvalidPacketType);
        }
        let kind = s[0];
        if kind < 48 || kind > 54 {
            return Err(Error::InvalidPacketType);
        }
        let mut count: usize = 0;
        let mut i: usize = 1;
        if kind == 53 || kind == 54 {
            let end = scan_digits(s, 1);
            proof {
                lemma_digits_end_bounds(s@, 1);
            }
            if end == 1 || end >= s.len() || s[end] != DASH {
                return Err(Error::InvalidPacketType);
            }
            match parse_digits(s, 1, end) {
                Some(v) => {
                    if v > usize::MAX as u64 {
                        return Err(Error::InvalidPacketType);
                    }
                    count = v as usize;
                },
                None => {
                    return Err(Error::InvalidPacketType);
                },
            }
            i = end + 1;
        }
        assert(i == ns_start(s@));
        let named = i < s.len() && !(48 <= s[i] && s[i] <= 57) && s[i] != OPEN_BRACKET && s[i]
            != OPEN_BRACE && s[i] != QUOTE;
        assert(named == has_ns(s@));
        let ns: Vec<u8>;
        if named {
            if s[i] != SLASH {
                return Err(Error::InvalidNamespace);
            }
            let end = scan_to(s, COMMA, i);
            ns = copy_range(s, i, end);
            i = if end < s.len() {
                end + 1
            } else {
                end
            };
        } else {
            ns = vec![SLASH];
            assert(ns@ =~= root_ns());
        }
        assert(i == ack_start(s@));
        let end = scan_digits(s, i);
        proof {
            lemma_digits_end_bounds(s@, i as int);
        }
        let ack = match parse_digits(s, i, end) {
            Some(v) => if end > i {
                Some(v)
            } else {
                None
            },
            None => {
                return Err(Error::InvalidPacketType);
            },
        };
        let data = copy_range(s, end, s.len());
        match verdict {
            Some(json) => assemble_with(kind, count, ns, ack, data, json),
            None => assemble(kind, count, ns, ack, data),
        }
    }
}

} // verus!
