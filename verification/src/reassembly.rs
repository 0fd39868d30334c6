//! Reassembly of binary packets.
//!
//! A binary event or ack travels as a string packet, the header, and the
//! attachments it declares, one binary frame each, directly behind it.
//! This module states, over plain sequences, what a receiver does with
//! one frame after another, and what follows for whole runs of frames.

use crate::errors::Error;
use crate::packet::decode_spec;
use crate::packet::encode_spec;
use crate::packet::lemma_decode_encode;
use crate::packet::PacketView;
use vstd::prelude::*;

verus! {

/// A frame as the session hands it up.
pub enum Input {
    Text(Seq<u8>),
    Binary(Seq<u8>),
}

/// What a frame leads to.
pub enum Step {
    /// A packet is complete and goes on to its namespace.
    Forward(PacketView),
    /// A binary packet waits for more attachments.
    Hold,
    /// The peer broke the protocol; the session is closed.
    Violation(Error),
}

/// What a frame leads to, given the binary packet that waits, if any.
///
/// A string frame is decoded. A binary packet that declares attachments
/// waits for them; any other packet goes on at once. A string frame while
/// a packet waits, a frame that does not decode, and a binary frame that
/// nothing waits for are violations. A binary frame joins the waiting
/// packet, which goes on when it has all it declared.
pub open spec fn feed_step(partial: Option<PacketView>, input: Input) -> Step {
    match (partial, input) {
        (Some(_), Input::Text(_)) => Step::Violation(Error::MissingAttachments),
        (None, Input::Text(text)) => match decode_spec(text) {
            Err(e) => Step::Violation(e),
            Ok(p) => if p.expects_more() {
                Step::Hold
            } else {
                Step::Forward(p)
            },
        },
        (None, Input::Binary(_)) => Step::Violation(Error::UnexpectedBinary),
        (Some(p), Input::Binary(data)) => if p.add_payload(data).expects_more() {
            Step::Hold
        } else {
            Step::Forward(p.add_payload(data))
        },
    }
}

/// The binary packet that waits after a frame.
pub open spec fn feed_state(partial: Option<PacketView>, input: Input) -> Option<PacketView> {
    match (partial, input) {
        (None, Input::Text(text)) => match decode_spec(text) {
            Ok(p) => if p.expects_more() {
                Some(p)
            } else {
                None
            },
            Err(_) => None,
        },
        (Some(p), Input::Binary(data)) => if p.add_payload(data).expects_more() {
            Some(p.add_payload(data))
        } else {
            None
        },
        _ => None,
    }
}

/// The binary packet that waits after a run of frames, starting with
/// nothing.
pub open spec fn run_state(inputs: Seq<Input>) -> Option<PacketView>
    decreases inputs.len(),
{
    if inputs.len() == 0 {
        None
    } else {
        feed_state(run_state(inputs.drop_last()), inputs.last())
    }
}

/// What the frame at position `i` of a run leads to.
pub open spec fn run_step(inputs: Seq<Input>, i: int) -> Step {
    feed_step(run_state(inputs.take(i)), inputs[i])
}

/// The frames `inputs[at..at + 1 + bin.len()]` are the header of `p` and
/// then the attachments `bin`, in order.
pub open spec fn carries(inputs: Seq<Input>, at: int, p: PacketView, bin: Seq<Seq<u8>>) -> bool {
    &&& 0 <= at
    &&& at + bin.len() < inputs.len()
    &&& inputs[at] matches Input::Text(text) && decode_spec(text) == Ok::<PacketView, Error>(
        p.header(),
    )
    &&& forall|j: int| 0 <= j < bin.len() ==> inputs[at + 1 + j] == Input::Binary(#[trigger] bin[j])
}

proof fn lemma_decoded_header(text: Seq<u8>, p: PacketView)
    requires
        decode_spec(text) == Ok::<PacketView, Error>(p),
    ensures
        p.header() == p,
        p.inner.is_binary() ==> p.inner.binary().bin.len() == 0,
{
    if p.inner.is_binary() {
        assert(p.inner.binary().bin =~= Seq::empty());
    }
    assert(p.header().inner == p.inner);
}

proof fn lemma_add_payload(p: PacketView, data: Seq<u8>)
    requires
        p.inner.is_binary(),
    ensures
        p.add_payload(data).header() == p.header(),
        p.add_payload(data).inner.is_binary(),
        p.add_payload(data).inner.binary().bin == p.inner.binary().bin.push(data),
        p.add_payload(data).inner.binary().payload_count == p.inner.binary().payload_count,
{
}

/// While a packet waits, the frames since its header are that header and
/// the attachments it holds, and nothing else.
proof fn lemma_waiting(inputs: Seq<Input>)
    ensures
        run_state(inputs) matches Some(q) ==> q.expects_more() && carries(
            inputs,
            inputs.len() - 1 - q.inner.binary().bin.len(),
            q,
            q.inner.binary().bin,
        ),
    decreases inputs.len(),
{
    if inputs.len() > 0 {
        let before = inputs.drop_last();
        lemma_waiting(before);
        match (run_state(before), inputs.last()) {
            (None, Input::Text(text)) => {
                match decode_spec(text) {
                    Ok(p) => {
                        lemma_decoded_header(text, p);
                    },
                    Err(_) => {},
                }
            },
            (Some(p), Input::Binary(data)) => {
                let q = p.add_payload(data);
                lemma_add_payload(p, data);
                if q.expects_more() {
                    let bin = q.inner.binary().bin;
                    let at = inputs.len() - 1 - bin.len();
                    assert(at == before.len() - 1 - p.inner.binary().bin.len());
                    assert(inputs[at] == before[at]);
                    assert forall|j: int| 0 <= j < bin.len() implies inputs[at + 1 + j]
                        == Input::Binary(#[trigger] bin[j]) by {
                        if j < bin.len() - 1 {
                            assert(inputs[at + 1 + j] == before[at + 1 + j]);
                            assert(bin[j] == p.inner.binary().bin[j]);
                        }
                    }
                }
            },
            _ => {},
        }
    }
}

/// Attachments follow their header. Whenever a run of frames completes a
/// binary packet with `n` attachments, the last `n + 1` frames were the
/// packet's header and then exactly its `n` attachments, in order, with
/// nothing in between; and `n` is the number that the header declared.
pub proof fn law_attachments_follow_header(inputs: Seq<Input>, i: int, p: PacketView)
    requires
        0 <= i < inputs.len(),
        run_step(inputs, i) == Step::Forward(p),
        p.inner.is_binary(),
    ensures
        p.inner.binary().bin.len() == p.inner.binary().payload_count,
        carries(inputs, i - p.inner.binary().bin.len(), p, p.inner.binary().bin),
{
    let before = inputs.take(i);
    lemma_waiting(before);
    match (run_state(before), inputs[i]) {
        (None, Input::Text(text)) => {
            lemma_decoded_header(text, p);
        },
        (Some(q), Input::Binary(data)) => {
            lemma_add_payload(q, data);
            let bin = p.inner.binary().bin;
            let at = i - bin.len();
            assert(at == before.len() - 1 - q.inner.binary().bin.len());
            assert(inputs[at] == before[at]);
            assert forall|j: int| 0 <= j < bin.len() implies inputs[at + 1 + j] == Input::Binary(
                #[trigger] bin[j],
            ) by {
                if j < bin.len() - 1 {
                    assert(inputs[at + 1 + j] == before[at + 1 + j]);
                    assert(bin[j] == q.inner.binary().bin[j]);
                }
            }
        },
        _ => {},
    }
}

/// Anything but the declared attachments behind a header is a violation:
/// a string frame while a packet waits, and a binary frame while none
/// does.
pub proof fn law_misplaced_frame_is_violation(inputs: Seq<Input>, i: int)
    requires
        0 <= i < inputs.len(),
    ensures
        run_state(inputs.take(i)) is Some && inputs[i] is Text ==> run_step(inputs, i)
            == Step::Violation(Error::MissingAttachments),
        run_state(inputs.take(i)) is None && inputs[i] is Binary ==> run_step(inputs, i)
            == Step::Violation(Error::UnexpectedBinary),
        run_step(inputs, i) is Violation ==> run_state(inputs.take(i + 1)) is None,
{
    assert(inputs.take(i + 1).drop_last() =~= inputs.take(i));
}

/// The frames that carry a packet: its string form, then its
/// attachments.
pub open spec fn wire_inputs(p: PacketView) -> Seq<Input> {
    seq![Input::Text(encode_spec(p))] + Seq::new(
        p.inner.binary().bin.len(),
        |j: int| Input::Binary(p.inner.binary().bin[j]),
    )
}

proof fn lemma_wire_prefix(p: PacketView, k: int)
    requires
        p.wf(),
        p.is_complete(),
        p.inner.is_binary(),
        1 <= k <= p.inner.binary().bin.len(),
    ensures
        run_state(wire_inputs(p).take(k)) == Some(
            p.with_attachments(p.inner.binary().bin.take(k - 1)),
        ),
    decreases k,
{
    let inputs = wire_inputs(p);
    let bin = p.inner.binary().bin;
    let run = inputs.take(k);
    lemma_decode_encode(p);
    assert(run.drop_last() =~= inputs.take(k - 1));
    if k == 1 {
        assert(inputs.take(0) =~= Seq::empty());
        assert(p.header() == p.with_attachments(bin.take(0))) by {
            assert(bin.take(0) =~= Seq::empty());
        }
    } else {
        lemma_wire_prefix(p, k - 1);
        let q = p.with_attachments(bin.take(k - 2));
        assert(run.last() == Input::Binary(bin[k - 2]));
        assert(q.add_payload(bin[k - 2]) == p.with_attachments(bin.take(k - 1))) by {
            assert(bin.take(k - 2).push(bin[k - 2]) =~= bin.take(k - 1));
        }
    }
}

/// A packet survives the wire. The frames of a well-formed, complete
/// packet, fed to a receiver that waits for nothing, are held until the
/// last of them, which forwards the very packet that was sent, with its
/// attachments at their places.
pub proof fn law_wire_round_trip(p: PacketView)
    requires
        p.wf(),
        p.is_complete(),
    ensures
        run_step(wire_inputs(p), wire_inputs(p).len() - 1) == Step::Forward(p),
        forall|i: int| 0 <= i < wire_inputs(p).len() - 1 ==> run_step(wire_inputs(p), i) is Hold,
        run_state(wire_inputs(p)) is None,
{
    let inputs = wire_inputs(p);
    let bin = p.inner.binary().bin;
    let n = bin.len() as int;
    lemma_decode_encode(p);
    assert(inputs.take(0) =~= Seq::empty());
    if !p.inner.is_binary() || n == 0 {
        assert(p.header() == p) by {
            if p.inner.is_binary() {
                assert(bin =~= Seq::empty());
            }
        }
        assert(inputs.drop_last() =~= Seq::empty());
    } else {
        assert forall|i: int| 0 <= i < inputs.len() - 1 implies run_step(inputs, i) is Hold by {
            if i > 0 {
                lemma_wire_prefix(p, i);
                let q = p.with_attachments(bin.take(i - 1));
                assert(inputs[i] == Input::Binary(bin[i - 1]));
                assert(q.add_payload(bin[i - 1]) == p.with_attachments(bin.take(i))) by {
                    assert(bin.take(i - 1).push(bin[i - 1]) =~= bin.take(i));
                }
            }
        }
        lemma_wire_prefix(p, n);
        let q = p.with_attachments(bin.take(n - 1));
        assert(inputs[n] == Input::Binary(bin[n - 1]));
        assert(q.add_payload(bin[n - 1]) == p) by {
            assert(bin.take(n - 1).push(bin[n - 1]) =~= bin);
        }
        assert(inputs.drop_last() =~= inputs.take(n));
        assert(inputs.last() == inputs[n]);
    }
}

} // verus!
