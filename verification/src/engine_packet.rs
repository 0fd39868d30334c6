//! The Engine.IO packet, its string form (one type digit, then the
//! payload), and the polling payload that joins string forms with the
//! record separator.

use crate::base64::b64_decode;
use crate::base64::b64_encode;
use crate::base64::decode;
use crate::base64::encode_into;
use crate::base64::lemma_b64_decode_encode;
use crate::base64::lemma_b64_no_separator;
use crate::errors::Error;
use crate::json::json_starts;
use crate::json::object_text;
use crate::sid::Sid;
use crate::text::append;
use crate::text::bytes_eq;
use crate::text::copy_range;
use crate::text::decimal;
use crate::text::find_byte;
use crate::text::lemma_find_byte_bounds;
use crate::text::lemma_find_byte_run;
use crate::text::push_decimal;
use crate::text::scan_to;
use vstd::prelude::*;

verus! {

/// The record separator between the string forms in a polling payload.
pub const SEPARATOR: u8 = 0x1e;

/// An Engine.IO packet.
#[derive(Clone, Debug, PartialEq, Eq)]
pub enum EnginePacket {
    /// Type `0`: the handshake, a JSON object.
    Open(Vec<u8>),
    /// Type `1`.
    Close,
    /// Type `2`; the flag tells the upgrade probe from a heartbeat.
    Ping(bool),
    /// Type `3`; the flag tells the upgrade probe from a heartbeat.
    Pong(bool),
    /// Type `4`: a text message.
    Message(Vec<u8>),
    /// Type `5`.
    Upgrade,
    /// Type `6`.
    Noop,
    /// Binary data; in a string form it is `b` and base64.
    Binary(Vec<u8>),
}

/// The contents of an [`EnginePacket`].
pub enum EnginePacketView {
    Open(Seq<u8>),
    Close,
    Ping(bool),
    Pong(bool),
    Message(Seq<u8>),
    Upgrade,
    Noop,
    Binary(Seq<u8>),
}

impl View for EnginePacket {
    type V = EnginePacketView;

    open spec fn view(&self) -> EnginePacketView {
        match self {
            EnginePacket::Open(json) => EnginePacketView::Open(json@),
            EnginePacket::Close => EnginePacketView::Close,
            EnginePacket::Ping(probe) => EnginePacketView::Ping(*probe),
            EnginePacket::Pong(probe) => EnginePacketView::Pong(*probe),
            EnginePacket::Message(text) => EnginePacketView::Message(text@),
            EnginePacket::Upgrade => EnginePacketView::Upgrade,
            EnginePacket::Noop => EnginePacketView::Noop,
            EnginePacket::Binary(data) => EnginePacketView::Binary(data@),
        }
    }
}

/// What travels in one WebSocket message.
#[derive(Clone, Debug, PartialEq, Eq)]
pub enum Frame {
    Text(Vec<u8>),
    Binary(Vec<u8>),
}

/// The contents of a [`Frame`].
pub enum FrameView {
    Text(Seq<u8>),
    Binary(Seq<u8>),
}

impl View for Frame {
    type V = FrameView;

    open spec fn view(&self) -> FrameView {
        match self {
            Frame::Text(text) => FrameView::Text(text@),
            Frame::Binary(data) => FrameView::Binary(data@),
        }
    }
}

/// The contents of a list of packets.
pub open spec fn packets_view(packets: Seq<EnginePacket>) -> Seq<EnginePacketView> {
    Seq::new(packets.len(), |i: int| packets[i]@)
}

/// The word `probe`.
pub open spec fn probe_word() -> Seq<u8> {
    seq![112u8, 114, 111, 98, 101]
}

/// The payload of a ping or pong: `probe` for the upgrade probe, nothing
/// for a heartbeat.
pub open spec fn probe_text(probe: bool) -> Seq<u8> {
    if probe {
        probe_word()
    } else {
        Seq::empty()
    }
}

/// The handshake object
/// `{"sid":"..","upgrades":[..],"pingInterval":..,"pingTimeout":..,"maxPayload":..}`.
/// `upgrades` holds `"websocket"` when an upgrade is on offer and is empty
/// otherwise; the three numbers are written in decimal.
pub open spec fn handshake_text(
    sid: Sid,
    upgrades: bool,
    ping_interval: u64,
    ping_timeout: u64,
    max_payload: u64,
) -> Seq<u8> {
    seq![123u8, 34, 115, 105, 100, 34, 58, 34] + sid.text() + seq![
        34u8, 44, 34, 117, 112, 103, 114, 97, 100, 101, 115, 34, 58, 91,
    ] + (if upgrades {
        seq![34u8, 119, 101, 98, 115, 111, 99, 107, 101, 116, 34]
    } else {
        Seq::empty()
    }) + seq![
        93u8, 44, 34, 112, 105, 110, 103, 73, 110, 116, 101, 114, 118, 97, 108, 34, 58,
    ] + decimal(ping_interval as nat) + seq![
        44u8, 34, 112, 105, 110, 103, 84, 105, 109, 101, 111, 117, 116, 34, 58,
    ] + decimal(
        ping_timeout as nat,
    ) + seq![
        44u8, 34, 109, 97, 120, 80, 97, 121, 108, 111, 97, 100, 34, 58,
    ] + decimal(max_payload as nat) + seq![125u8]
}

impl EnginePacketView {
    /// The packet has a string form that decodes: a handshake must be a
    /// JSON object.
    pub open spec fn wf(self) -> bool {
        self matches EnginePacketView::Open(json) ==> object_text(json)
    }

    /// The packet can stand in a polling payload: its text holds no record
    /// separator.
    pub open spec fn separable(self) -> bool {
        match self {
            EnginePacketView::Open(json) => !json.contains(SEPARATOR),
            EnginePacketView::Message(text) => !text.contains(SEPARATOR),
            _ => true,
        }
    }
}

/// The string form of a packet.
pub open spec fn encode_text_spec(p: EnginePacketView) -> Seq<u8> {
    match p {
        EnginePacketView::Open(json) => seq![48u8] + json,
        EnginePacketView::Close => seq![49u8],
        EnginePacketView::Ping(probe) => seq![50u8] + probe_text(probe),
        EnginePacketView::Pong(probe) => seq![51u8] + probe_text(probe),
        EnginePacketView::Message(text) => seq![52u8] + text,
        EnginePacketView::Upgrade => seq![53u8],
        EnginePacketView::Noop => seq![54u8],
        EnginePacketView::Binary(data) => seq![98u8] + b64_encode(data),
    }
}

/// The packet that a string form denotes, or the reason why it denotes
/// none.
pub open spec fn decode_text_spec(s: Seq<u8>) -> Result<EnginePacketView, Error> {
    if s.len() == 0 {
        Err(Error::InvalidPacketType)
    } else {
        let rest = s.skip(1);
        if s[0] == 48 {
            if object_text(rest) {
                Ok(EnginePacketView::Open(rest))
            } else {
                Err(Error::InvalidJson)
            }
        } else if s[0] == 50 || s[0] == 51 {
            if rest.len() != 0 && rest != probe_word() {
                Err(Error::InvalidPacketType)
            } else if s[0] == 50 {
                Ok(EnginePacketView::Ping(rest.len() != 0))
            } else {
                Ok(EnginePacketView::Pong(rest.len() != 0))
            }
        } else if s[0] == 52 {
            Ok(EnginePacketView::Message(rest))
        } else if s[0] == 98 {
            match b64_decode(rest) {
                Some(data) => Ok(EnginePacketView::Binary(data)),
                None => Err(Error::InvalidBase64),
            }
        } else if rest.len() != 0 {
            Err(Error::InvalidPacketType)
        } else if s[0] == 49 {
            Ok(EnginePacketView::Close)
        } else if s[0] == 53 {
            Ok(EnginePacketView::Upgrade)
        } else if s[0] == 54 {
            Ok(EnginePacketView::Noop)
        } else {
            Err(Error::InvalidPacketType)
        }
    }
}

/// The WebSocket message that carries a packet: binary data goes out raw,
/// everything else as text.
pub open spec fn encode_frame_spec(p: EnginePacketView) -> FrameView {
    match p {
        EnginePacketView::Binary(data) => FrameView::Binary(data),
        other => FrameView::Text(encode_text_spec(other)),
    }
}

/// The packet that a WebSocket message denotes.
pub open spec fn decode_frame_spec(f: FrameView) -> Result<EnginePacketView, Error> {
    match f {
        FrameView::Binary(data) => Ok(EnginePacketView::Binary(data)),
        FrameView::Text(text) => decode_text_spec(text),
    }
}

/// The polling payload of a list of packets: their string forms, joined
/// by the record separator.
pub open spec fn payload_spec(packets: Seq<EnginePacketView>) -> Seq<u8>
    decreases packets.len(),
{
    if packets.len() == 0 {
        Seq::empty()
    } else if packets.len() == 1 {
        encode_text_spec(packets[0])
    } else {
        encode_text_spec(packets[0]) + seq![SEPARATOR] + payload_spec(packets.skip(1))
    }
}

/// The packets that a polling payload denotes: it is cut at every record
/// separator and each piece is decoded; the first piece that fails gives
/// the error.
pub open spec fn decode_payload_spec(s: Seq<u8>) -> Result<Seq<EnginePacketView>, Error>
    decreases s.len(),
{
    let end = find_byte(s, SEPARATOR, 0);
    match decode_text_spec(s.subrange(0, end)) {
        Err(e) => Err(e),
        Ok(p) => if 0 <= end < s.len() {
            match decode_payload_spec(s.skip(end + 1)) {
                Ok(rest) => Ok(seq![p] + rest),
                Err(e) => Err(e),
            }
        } else {
            Ok(seq![p])
        },
    }
}

/// How many packets from the head of `queue`, starting the count at
/// `taken`, go into one polling response of at most `max_payload` bytes.
pub open spec fn batch_from(queue: Seq<EnginePacketView>, taken: nat, max_payload: nat) -> nat
    decreases queue.len() - taken,
{
    if taken < queue.len() && payload_spec(queue.take(taken as int + 1)).len() <= max_payload {
        batch_from(queue, taken + 1, max_payload)
    } else {
        taken
    }
}

/// How many packets from the head of `queue` one polling response
/// carries: as many as fit in `max_payload` bytes, and always the first,
/// so that a packet larger than the limit still leaves.
pub open spec fn batch_len(queue: Seq<EnginePacketView>, max_payload: nat) -> nat {
    if queue.len() == 0 {
        0
    } else {
        batch_from(queue, 1, max_payload)
    }
}

/// Decoding the string form of a well-formed packet gives the packet
/// back.
pub proof fn lemma_decode_encode_text(p: EnginePacketView)
    requires
        p.wf(),
    ensures
        decode_text_spec(encode_text_spec(p)) == Ok::<EnginePacketView, Error>(p),
        encode_text_spec(p).len() > 0,
{
    let s = encode_text_spec(p);
    match p {
        EnginePacketView::Open(json) => {
            assert(s.skip(1) =~= json);
        },
        EnginePacketView::Ping(probe) => {
            assert(s.skip(1) =~= probe_text(probe));
        },
        EnginePacketView::Pong(probe) => {
            assert(s.skip(1) =~= probe_text(probe));
        },
        EnginePacketView::Message(text) => {
            assert(s.skip(1) =~= text);
        },
        EnginePacketView::Binary(data) => {
            assert(s.skip(1) =~= b64_encode(data));
            lemma_b64_decode_encode(data);
        },
        _ => {},
    }
}

/// Decoding the WebSocket message of a well-formed packet gives the
/// packet back.
pub proof fn lemma_decode_encode_frame(p: EnginePacketView)
    requires
        p.wf(),
    ensures
        decode_frame_spec(encode_frame_spec(p)) == Ok::<EnginePacketView, Error>(p),
{
    lemma_decode_encode_text(p);
}

/// The string form of a separable packet holds no record separator.
pub proof fn lemma_text_no_separator(p: EnginePacketView)
    requires
        p.separable(),
    ensures
        !encode_text_spec(p).contains(SEPARATOR),
{
    let s = encode_text_spec(p);
    match p {
        EnginePacketView::Open(json) => {
            assert forall|i: int| 0 <= i < s.len() implies #[trigger] s[i] != SEPARATOR by {
                if i > 0 {
                    assert(json.contains(json[i - 1]));
                }
            }
        },
        EnginePacketView::Message(text) => {
            assert forall|i: int| 0 <= i < s.len() implies #[trigger] s[i] != SEPARATOR by {
                if i > 0 {
                    assert(text.contains(text[i - 1]));
                }
            }
        },
        EnginePacketView::Binary(data) => {
            lemma_b64_no_separator(data);
            let t = b64_encode(data);
            assert forall|i: int| 0 <= i < s.len() implies #[trigger] s[i] != SEPARATOR by {
                if i > 0 {
                    assert(t.contains(t[i - 1]));
                }
            }
        },
        _ => {},
    }
}

/// All packets of a list are well-formed and separable.
pub open spec fn all_framable(packets: Seq<EnginePacketView>) -> bool {
    forall|i: int| 0 <= i < packets.len() ==> (#[trigger] packets[i]).wf() && packets[i].separable()
}

/// Decoding the polling payload of a non-empty list of well-formed,
/// separable packets gives the list back.
pub proof fn lemma_decode_encode_payload(packets: Seq<EnginePacketView>)
    requires
        packets.len() > 0,
        all_framable(packets),
    ensures
        decode_payload_spec(payload_spec(packets)) == Ok::<Seq<EnginePacketView>, Error>(packets),
    decreases packets.len(),
{
    let s = payload_spec(packets);
    let first = encode_text_spec(packets[0]);
    lemma_text_no_separator(packets[0]);
    lemma_decode_encode_text(packets[0]);
    if packets.len() == 1 {
        assert(s.subrange(0, s.len() as int) == s);
        lemma_find_byte_run(s, SEPARATOR, 0, s.len() as int);
        assert(packets =~= seq![packets[0]]);
    } else {
        let tail = packets.skip(1);
        assert(s.subrange(0, first.len() as int) =~= first);
        lemma_find_byte_run(s, SEPARATOR, 0, first.len() as int);
        assert(s.skip(first.len() as int + 1) =~= payload_spec(tail));
        assert(all_framable(tail));
        lemma_decode_encode_payload(tail);
        assert(packets =~= seq![packets[0]] + tail);
    }
}

/// Appending a packet to a non-empty list appends a separator and the
/// packet's string form to the payload.
pub proof fn lemma_payload_push(packets: Seq<EnginePacketView>, p: EnginePacketView)
    ensures
        payload_spec(packets.push(p)) == if packets.len() == 0 {
            encode_text_spec(p)
        } else {
            payload_spec(packets) + seq![SEPARATOR] + encode_text_spec(p)
        },
    decreases packets.len(),
{
    let all = packets.push(p);
    if packets.len() == 0 {
    } else if packets.len() == 1 {
        assert(all.skip(1) =~= seq![p]);
        assert(payload_spec(all.skip(1)) == encode_text_spec(p));
    } else {
        lemma_payload_push(packets.skip(1), p);
        assert(all.skip(1) =~= packets.skip(1).push(p));
        assert(payload_spec(all) =~= payload_spec(packets) + seq![SEPARATOR] + encode_text_spec(
            p,
        ));
    }
}

/// Two payloads that follow one another carry, between them, the packets
/// of both in order: joined by a separator they are the payload of the
/// whole list.
pub proof fn lemma_payload_concat(a: Seq<EnginePacketView>, b: Seq<EnginePacketView>)
    requires
        a.len() > 0,
        b.len() > 0,
    ensures
        payload_spec(a + b) == payload_spec(a) + seq![SEPARATOR] + payload_spec(b),
    decreases b.len(),
{
    if b.len() == 1 {
        assert(a + b =~= a.push(b[0]));
        lemma_payload_push(a, b[0]);
    } else {
        let front = b.drop_last();
        lemma_payload_concat(a, front);
        assert(a + b =~= (a + front).push(b.last()));
        lemma_payload_push(a + front, b.last());
        assert(b =~= front.push(b.last()));
        lemma_payload_push(front, b.last());
    }
}

fn probe_bytes() -> (v: Vec<u8>)
    ensures
        v@ == probe_word(),
{
    let v: Vec<u8> = vec![112u8, 114, 111, 98, 101];
    assert(v@ =~= probe_word());
    v
}

/// Builds the handshake object that an `Open` packet carries.
pub fn handshake(
    sid: Sid,
    upgrades: bool,
    ping_interval: u64,
    ping_timeout: u64,
    max_payload: u64,
) -> (out: Vec<u8>)
    ensures
        out@ == handshake_text(sid, upgrades, ping_interval, ping_timeout, max_payload),
{
    let mut out: Vec<u8> = vec![123u8, 34, 115, 105, 100, 34, 58, 34];
    let text = sid.to_text();
    append(&mut out, text.as_slice());
    let part: Vec<u8> = vec![34u8, 44, 34, 117, 112, 103, 114, 97, 100, 101, 115, 34, 58, 91];
    append(&mut out, part.as_slice());
    if upgrades {
        let part: Vec<u8> = vec![34u8, 119, 101, 98, 115, 111, 99, 107, 101, 116, 34];
        append(&mut out, part.as_slice());
    }
    let part: Vec<u8> = vec![
        93u8, 44, 34, 112, 105, 110, 103, 73, 110, 116, 101, 114, 118, 97, 108, 34, 58,
    ];
    append(&mut out, part.as_slice());
    push_decimal(&mut out, ping_interval);
    let part: Vec<u8> = vec![
        44u8, 34, 112, 105, 110, 103, 84, 105, 109, 101, 111, 117, 116, 34, 58,
    ];
    append(&mut out, part.as_slice());
    push_decimal(&mut out, ping_timeout);
    let part: Vec<u8> = vec![44u8, 34, 109, 97, 120, 80, 97, 121, 108, 111, 97, 100, 34, 58];
    append(&mut out, part.as_slice());
    push_decimal(&mut out, max_payload);
    out.push(125);
    assert(out@ =~= handshake_text(sid, upgrades, ping_interval, ping_timeout, max_payload));
    out
}

impl EnginePacket {
    /// Appends the string form of the packet to `out`.
    pub fn encode_into(&self, out: &mut Vec<u8>)
        ensures
            final(out)@ == old(out)@ + encode_text_spec(self@),
    {
        match self {
            EnginePacket::Open(json) => {
                out.push(48);
                append(out, json.as_slice());
            },
            EnginePacket::Close => out.push(49),
            EnginePacket::Ping(probe) => {
                out.push(50);
                if *probe {
                    let word = probe_bytes();
                    append(out, word.as_slice());
                }
            },
            EnginePacket::Pong(probe) => {
                out.push(51);
                if *probe {
                    let word = probe_bytes();
                    append(out, word.as_slice());
                }
            },
            EnginePacket::Message(text) => {
                out.push(52);
                append(out, text.as_slice());
            },
            EnginePacket::Upgrade => out.push(53),
            EnginePacket::Noop => out.push(54),
            EnginePacket::Binary(data) => {
                out.push(98);
                encode_into(out, data.as_slice());
            },
        }
        assert(out@ =~= old(out)@ + encode_text_spec(self@));
    }

    /// The string form of the packet.
    pub fn encode(&self) -> (out: Vec<u8>)
        ensures
            out@ == encode_text_spec(self@),
            self@.wf() ==> decode_text_spec(out@) == Ok::<EnginePacketView, Error>(self@),
    {
        let mut out: Vec<u8> = Vec::new();
        self.encode_into(&mut out);
        proof {
            assert(out@ =~= encode_text_spec(self@));
            if self@.wf() {
                lemma_decode_encode_text(self@);
            }
        }
        out
    }

    /// Reads a packet from its string form. The result is exactly
    /// [`decode_text_spec`].
    pub fn decode(s: &[u8]) -> (r: Result<EnginePacket, Error>)
        ensures
            match r {
                Ok(p) => decode_text_spec(s@) == Ok::<EnginePacketView, Error>(p@),
                Err(e) => decode_text_spec(s@) == Err::<EnginePacketView, Error>(e),
            },
    {
        if s.len() == 0 {
            return Err(Error::InvalidPacketType);
        }
        let kind = s[0];
        let rest = copy_range(s, 1, s.len());
        assert(rest@ == s@.skip(1));
        if kind == 48 {
            if json_starts(rest.as_slice(), 123) {
                Ok(EnginePacket::Open(rest))
            } else {
                Err(Error::InvalidJson)
            }
        } else if kind == 50 || kind == 51 {
            let word = probe_bytes();
            if rest.len() != 0 && !bytes_eq(rest.as_slice(), word.as_slice()) {
                Err(Error::InvalidPacketType)
            } else if kind == 50 {
                Ok(EnginePacket::Ping(rest.len() != 0))
            } else {
                Ok(EnginePacket::Pong(rest.len() != 0))
            }
        } else if kind == 52 {
            Ok(EnginePacket::Message(rest))
        } else if kind == 98 {
            match decode(rest.as_slice()) {
                Some(data) => Ok(EnginePacket::Binary(data)),
                None => Err(Error::InvalidBase64),
            }
        } else if rest.len() != 0 {
            Err(Error::InvalidPacketType)
        } else if kind == 49 {
            Ok(EnginePacket::Close)
        } else if kind == 53 {
            Ok(EnginePacket::Upgrade)
        } else if kind == 54 {
            Ok(EnginePacket::Noop)
        } else {
            Err(Error::InvalidPacketType)
        }
    }

    /// The WebSocket message that carries the packet.
    pub fn to_frame(&self) -> (f: Frame)
        ensures
            f@ == encode_frame_spec(self@),
            self@.wf() ==> decode_frame_spec(f@) == Ok::<EnginePacketView, Error>(self@),
    {
        proof {
            if self@.wf() {
                lemma_decode_encode_frame(self@);
            }
        }
        match self {
            EnginePacket::Binary(data) => Frame::Binary(data.clone()),
            _ => Frame::Text(self.encode()),
        }
    }

    /// Reads a packet from a WebSocket message. The result is exactly
    /// [`decode_frame_spec`].
    pub fn from_frame(f: Frame) -> (r: Result<EnginePacket, Error>)
        ensures
            match r {
                Ok(p) => decode_frame_spec(f@) == Ok::<EnginePacketView, Error>(p@),
                Err(e) => decode_frame_spec(f@) == Err::<EnginePacketView, Error>(e),
            },
    {
        match f {
            Frame::Binary(data) => Ok(EnginePacket::Binary(data)),
            Frame::Text(text) => EnginePacket::decode(text.as_slice()),
        }
    }
}

/// The polling payload of `packets`.
pub fn encode_payload(packets: &[EnginePacket]) -> (out: Vec<u8>)
    ensures
        out@ == payload_spec(packets_view(packets@)),
        packets@.len() > 0 && all_framable(packets_view(packets@)) ==> decode_payload_spec(out@)
            == Ok::<Seq<EnginePacketView>, Error>(packets_view(packets@)),
{
    let ghost all = packets_view(packets@);
    let mut out: Vec<u8> = Vec::new();
    let mut i: usize = 0;
    assert(all.take(0) =~= Seq::empty());
    while i < packets.len()
        invariant
            i <= packets.len(),
            all == packets_view(packets@),
            out@ == payload_spec(all.take(i as int)),
        decreases packets.len() - i,
    {
        if i > 0 {
            out.push(SEPARATOR);
        }
        packets[i].encode_into(&mut out);
        proof {
            assert(all.take(i + 1) =~= all.take(i as int).push(all[i as int]));
            lemma_payload_push(all.take(i as int), all[i as int]);
        }
        i += 1;
    }
    proof {
        assert(all.take(packets.len() as int) =~= all);
        if packets@.len() > 0 && all_framable(all) {
            lemma_decode_encode_payload(all);
        }
    }
    out
}

/// Reads the packets of a polling payload. The result is exactly
/// [`decode_payload_spec`].
pub fn decode_payload(s: &[u8]) -> (r: Result<Vec<EnginePacket>, Error>)
    ensures
        match r {
            Ok(packets) => decode_payload_spec(s@) == Ok::<Seq<EnginePacketView>, Error>(
                packets_view(packets@),
            ),
            Err(e) => decode_payload_spec(s@) == Err::<Seq<EnginePacketView>, Error>(e),
        },
{
    let mut out: Vec<EnginePacket> = Vec::new();
    let mut i: usize = 0;
    assert(s@.skip(0) == s@);
    assert(packets_view(out@) =~= Seq::empty());
    loop
        invariant
            i <= s.len(),
            match decode_payload_spec(s@.skip(i as int)) {
                Ok(rest) => decode_payload_spec(s@) == Ok::<Seq<EnginePacketView>, Error>(
                    packets_view(out@) + rest,
                ),
                Err(e) => decode_payload_spec(s@) == Err::<Seq<EnginePacketView>, Error>(e),
            },
        decreases s.len() - i,
    {
        let ghost rest = s@.skip(i as int);
        let ghost before = packets_view(out@);
        let end = scan_to(s, SEPARATOR, i);
        proof {
            lemma_find_byte_bounds(s@, SEPARATOR, i as int);
            lemma_find_byte_bounds(rest, SEPARATOR, 0);
            assert(rest.subrange(0, end - i) =~= s@.subrange(i as int, end as int));
            if end < s.len() {
                assert(rest[end - i] == s@[end as int]);
            }
            lemma_find_byte_run(rest, SEPARATOR, 0, end - i);
            if end < s.len() {
                assert(rest.skip(end - i + 1) =~= s@.skip(end + 1));
            }
        }
        let piece = copy_range(s, i, end);
        match EnginePacket::decode(piece.as_slice()) {
            Ok(p) => {
                out.push(p);
            },
            Err(e) => {
                return Err(e);
            },
        }
        let ghost decoded = out@[out@.len() - 1]@;
        assert(packets_view(out@) =~= before + seq![decoded]);
        if end >= s.len() {
            return Ok(out);
        }
        proof {
            match decode_payload_spec(s@.skip(end + 1)) {
                Ok(tail) => {
                    assert(packets_view(out@) + tail =~= before + (seq![decoded] + tail));
                },
                Err(e) => {},
            }
        }
        i = end + 1;
    }
}

} // verus!
