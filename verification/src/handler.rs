//! The seam between the Engine.IO layer and what is built on it.

use crate::engine_packet::EnginePacket;
use crate::errors::DisconnectReason;
use crate::engine_packet::EnginePacketView;
use crate::session::Inbound;
use crate::session::InboundView;
use crate::session::SessionView;
use crate::session::Session;
use vstd::prelude::*;

verus! {

/// What the Engine.IO layer calls when something happens to a session.
///
/// A handler keeps a value of type `Data` for every session; the caller
/// stores it and hands it in with the session.
pub trait EngineIoHandler {
    type Data;

    /// What must hold of the handler between calls; nothing, unless a
    /// handler says otherwise.
    open spec fn inv(&self) -> bool {
        true
    }

    /// What must hold of a session's data between calls; nothing, unless
    /// a handler says otherwise.
    open spec fn data_inv(data: &Self::Data) -> bool {
        true
    }

    /// What `on_connect` does: how the handler, the session and the
    /// session's data after the call relate to those before. Nothing is
    /// known of it unless a handler says.
    open spec fn connect_rel(
        pre: &Self,
        post: &Self,
        s0: SessionView,
        s1: SessionView,
        d0: &Self::Data,
        d1: &Self::Data,
    ) -> bool {
        true
    }

    /// What `on_disconnect` does for the session `s` that ended for
    /// `reason`. Nothing is known of it unless a handler says.
    open spec fn disconnect_rel(
        pre: &Self,
        post: &Self,
        s: SessionView,
        reason: DisconnectReason,
        d0: &Self::Data,
        d1: &Self::Data,
    ) -> bool {
        true
    }

    /// What `on_message` does with the text `msg`. Nothing is known of it
    /// unless a handler says.
    open spec fn message_rel(
        pre: &Self,
        post: &Self,
        msg: Seq<u8>,
        s0: SessionView,
        s1: SessionView,
        d0: &Self::Data,
        d1: &Self::Data,
    ) -> bool {
        true
    }

    /// What `on_binary` does with the data `payload`. Nothing is known
    /// of it unless a handler says.
    open spec fn binary_rel(
        pre: &Self,
        post: &Self,
        payload: Seq<u8>,
        s0: SessionView,
        s1: SessionView,
        d0: &Self::Data,
        d1: &Self::Data,
    ) -> bool {
        true
    }

    /// Makes what the handler keeps for a new session.
    fn fresh_data(&self) -> (data: Self::Data)
        requires
            self.inv(),
        ensures
            Self::data_inv(&data),
    ;

    /// A session has opened.
    fn on_connect(&mut self, socket: &mut Session, data: &mut Self::Data)
        requires
            old(self).inv(),
            old(socket)@.wf(),
            Self::data_inv(old(data)),
        ensures
            final(self).inv(),
            final(socket)@.wf(),
            final(socket)@.id == old(socket)@.id,
            Self::data_inv(final(data)),
            Self::connect_rel(
                &*old(self),
                &*final(self),
                old(socket)@,
                final(socket)@,
                &*old(data),
                &*final(data),
            ),
    ;

    /// A session has ended.
    fn on_disconnect(&mut self, socket: &Session, reason: DisconnectReason, data: &mut Self::Data)
        requires
            old(self).inv(),
            Self::data_inv(old(data)),
        ensures
            final(self).inv(),
            Self::data_inv(final(data)),
            Self::disconnect_rel(
                &*old(self),
                &*final(self),
                socket@,
                reason,
                &*old(data),
                &*final(data),
            ),
    ;

    /// A text message has arrived.
    fn on_message(&mut self, msg: Vec<u8>, socket: &mut Session, data: &mut Self::Data)
        requires
            old(self).inv(),
            old(socket)@.wf(),
            Self::data_inv(old(data)),
        ensures
            final(self).inv(),
            final(socket)@.wf(),
            final(socket)@.id == old(socket)@.id,
            Self::data_inv(final(data)),
            Self::message_rel(
                &*old(self),
                &*final(self),
                msg@,
                old(socket)@,
                final(socket)@,
                &*old(data),
                &*final(data),
            ),
    ;

    /// A binary message has arrived.
    fn on_binary(&mut self, payload: Vec<u8>, socket: &mut Session, data: &mut Self::Data)
        requires
            old(self).inv(),
            old(socket)@.wf(),
            Self::data_inv(old(data)),
        ensures
            final(self).inv(),
            final(socket)@.wf(),
            final(socket)@.id == old(socket)@.id,
            Self::data_inv(final(data)),
            Self::binary_rel(
                &*old(self),
                &*final(self),
                payload@,
                old(socket)@,
                final(socket)@,
                &*old(data),
                &*final(data),
            ),
    ;
}

/// What the end of a session means for the handler. If the session `s`
/// has stopped being live since `was_live` was taken, the handler was
/// told so, with the reason that the session records; otherwise the
/// handler and the data are as they were.
pub open spec fn end_rel<H: EngineIoHandler>(
    pre: &H,
    post: &H,
    s: SessionView,
    was_live: bool,
    d0: &H::Data,
    d1: &H::Data,
) -> bool {
    if was_live && !s.is_live() && s.close_reason is Some {
        H::disconnect_rel(pre, post, s, s.close_reason->0, d0, d1)
    } else {
        *post == *pre && *d1 == *d0
    }
}

/// What taking one inbound packet through the session and the handler
/// does. The session handles the packet first. A message or binary data
/// that it leaves is handed to the handler, which may change the session
/// in its turn; a packet that leaves nothing does not reach the handler.
/// Then, if the session has stopped being live on the way, the handler is
/// told that it ended.
pub open spec fn dispatch_rel<H: EngineIoHandler>(
    pre: &H,
    post: &H,
    s0: SessionView,
    s1: SessionView,
    d0: &H::Data,
    d1: &H::Data,
    packet: EnginePacketView,
    now: u64,
) -> bool {
    let received = s0.receive(packet, now);
    match s0.inbound(packet) {
        InboundView::Nothing => s1 == received && end_rel(pre, post, s1, s0.is_live(), d0, d1),
        InboundView::Message(text) => exists|mid: H, md: H::Data| #[trigger]
            H::message_rel(pre, &mid, text, received, s1, d0, &md) && end_rel(
                &mid,
                post,
                s1,
                s0.is_live(),
                &md,
                d1,
            ),
        InboundView::Binary(payload) => exists|mid: H, md: H::Data| #[trigger]
            H::binary_rel(pre, &mid, payload, received, s1, d0, &md) && end_rel(
                &mid,
                post,
                s1,
                s0.is_live(),
                &md,
                d1,
            ),
    }
}

/// The step `i` of a run: the packet `packets[i]` takes the handler, the
/// session and the data from their `i`-th states to the next; see
/// [`dispatch_rel`].
pub open spec fn step_ok<H: EngineIoHandler>(
    hs: Seq<H>,
    ss: Seq<SessionView>,
    ds: Seq<H::Data>,
    packets: Seq<EnginePacketView>,
    i: int,
    now: u64,
) -> bool {
    dispatch_rel(&hs[i], &hs[i + 1], ss[i], ss[i + 1], &ds[i], &ds[i + 1], packets[i], now)
}

/// A run: the states of the handler, the session and the data before,
/// between and after the packets, each step as [`dispatch_rel`] says.
pub open spec fn run_ok<H: EngineIoHandler>(
    hs: Seq<H>,
    ss: Seq<SessionView>,
    ds: Seq<H::Data>,
    packets: Seq<EnginePacketView>,
    now: u64,
) -> bool {
    &&& hs.len() == packets.len() + 1
    &&& ss.len() == packets.len() + 1
    &&& ds.len() == packets.len() + 1
    &&& forall|i: int| 0 <= i < packets.len() ==> #[trigger] step_ok(hs, ss, ds, packets, i, now)
}

/// What taking `packets` through the session and the handler does, one
/// after the other and in order: there is a run from the states before to
/// the states after.
pub open spec fn dispatched<H: EngineIoHandler>(
    pre: &H,
    post: &H,
    s0: SessionView,
    s1: SessionView,
    d0: &H::Data,
    d1: &H::Data,
    packets: Seq<EnginePacketView>,
    now: u64,
) -> bool {
    exists|hs: Seq<H>, ss: Seq<SessionView>, ds: Seq<H::Data>| #[trigger]
        run_ok(hs, ss, ds, packets, now) && hs[0] == *pre && hs.last() == *post && ss[0] == s0
            && ss.last() == s1 && ds[0] == *d0 && ds.last() == *d1
}

/// Taking no packet changes nothing.
pub proof fn lemma_dispatched_none<H: EngineIoHandler>(h: &H, s: SessionView, d: &H::Data, now: u64)
    ensures
        dispatched(h, h, s, s, d, d, Seq::<EnginePacketView>::empty(), now),
{
    let hs = seq![*h];
    let ss = seq![s];
    let ds = seq![*d];
    assert(run_ok(hs, ss, ds, Seq::<EnginePacketView>::empty(), now));
}

/// One more packet taken after others makes the list one longer.
pub proof fn lemma_dispatched_step<H: EngineIoHandler>(
    pre: &H,
    mid: &H,
    post: &H,
    s0: SessionView,
    ms: SessionView,
    s1: SessionView,
    d0: &H::Data,
    md: &H::Data,
    d1: &H::Data,
    packets: Seq<EnginePacketView>,
    next: EnginePacketView,
    now: u64,
)
    requires
        dispatched(pre, mid, s0, ms, d0, md, packets, now),
        dispatch_rel(mid, post, ms, s1, md, d1, next, now),
    ensures
        dispatched(pre, post, s0, s1, d0, d1, packets.push(next), now),
{
    let (hs, ss, ds) = choose|hs: Seq<H>, ss: Seq<SessionView>, ds: Seq<H::Data>| #[trigger]
        run_ok(hs, ss, ds, packets, now) && hs[0] == *pre && hs.last() == *mid && ss[0] == s0
            && ss.last() == ms && ds[0] == *d0 && ds.last() == *md;
    let hs2 = hs.push(*post);
    let ss2 = ss.push(s1);
    let ds2 = ds.push(*d1);
    let longer = packets.push(next);
    let n = packets.len() as int;
    assert forall|i: int| 0 <= i < longer.len() implies #[trigger] step_ok(
        hs2,
        ss2,
        ds2,
        longer,
        i,
        now,
    ) by {
        if i < n {
            assert(step_ok(hs, ss, ds, packets, i, now));
            assert(hs2[i] == hs[i] && hs2[i + 1] == hs[i + 1]);
            assert(ss2[i] == ss[i] && ss2[i + 1] == ss[i + 1]);
            assert(ds2[i] == ds[i] && ds2[i + 1] == ds[i + 1]);
            assert(longer[i] == packets[i]);
        } else {
            assert(hs2[n] == *mid && hs2[n + 1] == *post);
            assert(ss2[n] == ms && ss2[n + 1] == s1);
            assert(ds2[n] == *md && ds2[n + 1] == *d1);
            assert(longer[n] == next);
        }
    }
    assert(run_ok(hs2, ss2, ds2, longer, now));
}

/// Packets that leave nothing for the handler and do not end the session
/// only move the session: it goes through [`SessionView::receive`] packet
/// by packet, and the handler and the data stay as they were.
pub proof fn lemma_dispatched_quiet<H: EngineIoHandler>(
    pre: &H,
    post: &H,
    s0: SessionView,
    s1: SessionView,
    d0: &H::Data,
    d1: &H::Data,
    packets: Seq<EnginePacketView>,
    now: u64,
)
    requires
        dispatched(pre, post, s0, s1, d0, d1, packets, now),
        s0.is_live(),
        forall|i: int|
            0 <= i < packets.len() ==> s0.inbound(#[trigger] packets[i]) is Nothing && received(
                s0,
                packets,
                i + 1,
                now,
            ).is_live(),
    ensures
        s1 == received(s0, packets, packets.len() as int, now),
        *post == *pre,
        *d1 == *d0,
{
    let (hs, ss, ds) = choose|hs: Seq<H>, ss: Seq<SessionView>, ds: Seq<H::Data>| #[trigger]
        run_ok(hs, ss, ds, packets, now) && hs[0] == *pre && hs.last() == *post && ss[0] == s0
            && ss.last() == s1 && ds[0] == *d0 && ds.last() == *d1;
    lemma_quiet_prefix(hs, ss, ds, packets, packets.len() as int, now);
}

/// The session after the first `n` of `packets` were received.
pub open spec fn received(
    s: SessionView,
    packets: Seq<EnginePacketView>,
    n: int,
    now: u64,
) -> SessionView
    decreases n,
{
    if n <= 0 {
        s
    } else {
        received(s, packets, n - 1, now).receive(packets[n - 1], now)
    }
}

proof fn lemma_quiet_prefix<H: EngineIoHandler>(
    hs: Seq<H>,
    ss: Seq<SessionView>,
    ds: Seq<H::Data>,
    packets: Seq<EnginePacketView>,
    n: int,
    now: u64,
)
    requires
        run_ok(hs, ss, ds, packets, now),
        0 <= n <= packets.len(),
        ss[0].is_live(),
        forall|i: int|
            0 <= i < packets.len() ==> ss[0].inbound(#[trigger] packets[i]) is Nothing
                && received(ss[0], packets, i + 1, now).is_live(),
    ensures
        ss[n] == received(ss[0], packets, n, now),
        hs[n] == hs[0],
        ds[n] == ds[0],
        ss[n].is_live(),
    decreases n,
{
    if n > 0 {
        lemma_quiet_prefix(hs, ss, ds, packets, n - 1, now);
        assert(step_ok(hs, ss, ds, packets, n - 1, now));
        let p = packets[n - 1];
        assert(ss[0].inbound(p) is Nothing);
        assert(ss[n - 1].inbound(p) is Nothing);
        assert(received(ss[0], packets, n - 1 + 1, now).is_live());
    }
}

/// Tells the handler that the session has ended, if it has stopped being
/// live since `was_live` was taken. Returns whether it was told.
pub fn notify_end<H: EngineIoHandler>(
    handler: &mut H,
    socket: &Session,
    data: &mut H::Data,
    was_live: bool,
) -> (told: bool)
    requires
        old(handler).inv(),
        socket@.wf(),
        H::data_inv(old(data)),
    ensures
        final(handler).inv(),
        H::data_inv(final(data)),
        told == (was_live && !socket@.is_live()),
        end_rel(&*old(handler), &*final(handler), socket@, was_live, &*old(data), &*final(data)),
{
    if !was_live || socket.is_live() {
        return false;
    }
    match socket.close_reason() {
        Some(reason) => {
            handler.on_disconnect(socket, reason, data);
        },
        None => {},
    }
    true
}

/// Takes one inbound packet through the session and the handler.
///
/// The session handles the packet first; see
/// [`crate::session::SessionView::receive`]. A message or binary data
/// that it leaves is handed to the handler. If the session has stopped
/// being live on the way, the handler is told that it ended. A packet
/// that leaves nothing and ends nothing does not reach the handler.
pub fn dispatch<H: EngineIoHandler>(
    handler: &mut H,
    socket: &mut Session,
    data: &mut H::Data,
    packet: EnginePacket,
    now: u64,
)
    requires
        old(handler).inv(),
        old(socket)@.wf(),
        H::data_inv(old(data)),
    ensures
        final(handler).inv(),
        final(socket)@.wf(),
        final(socket)@.id == old(socket)@.id,
        H::data_inv(final(data)),
        dispatch_rel(
            &*old(handler),
            &*final(handler),
            old(socket)@,
            final(socket)@,
            &*old(data),
            &*final(data),
            packet@,
            now,
        ),
{
    let was_live = socket.is_live();
    match socket.receive(packet, now) {
        Inbound::Message(text) => {
            handler.on_message(text, socket, data);
        },
        Inbound::Binary(payload) => {
            handler.on_binary(payload, socket, data);
        },
        Inbound::Nothing => {},
    }
    let ghost mid = *handler;
    let ghost md = *data;
    notify_end(handler, socket, data, was_live);
    proof {
        match old(socket)@.inbound(packet@) {
            InboundView::Message(text) => {
                assert(H::message_rel(
                    &*old(handler),
                    &mid,
                    text,
                    old(socket)@.receive(packet@, now),
                    socket@,
                    &*old(data),
                    &md,
                ));
            },
            InboundView::Binary(payload) => {
                assert(H::binary_rel(
                    &*old(handler),
                    &mid,
                    payload,
                    old(socket)@.receive(packet@, now),
                    socket@,
                    &*old(data),
                    &md,
                ));
            },
            InboundView::Nothing => {},
        }
    }
}

/// Tells the session the time and, if its heartbeat ran out, tells the
/// handler that the session ended.
pub fn heartbeat<H: EngineIoHandler>(
    handler: &mut H,
    socket: &mut Session,
    data: &mut H::Data,
    now: u64,
) -> (ended: bool)
    requires
        old(handler).inv(),
        old(socket)@.wf(),
        H::data_inv(old(data)),
    ensures
        final(handler).inv(),
        final(socket)@.wf(),
        H::data_inv(final(data)),
        final(socket)@ == old(socket)@.tick(now),
        ended == (old(socket)@.is_live() && !final(socket)@.is_live()),
        end_rel(
            &*old(handler),
            &*final(handler),
            final(socket)@,
            old(socket)@.is_live(),
            &*old(data),
            &*final(data),
        ),
{
    let was_live = socket.is_live();
    socket.tick(now);
    notify_end(handler, socket, data, was_live)
}

} // verus!
