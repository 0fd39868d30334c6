//! The Engine.IO session: one client's state machine, its outbound queue,
//! its heartbeat and the upgrade from long-polling to a WebSocket.
//!
//! The session never touches a transport or a clock. A transport asks it
//! what to write and tells it what arrived; a timer tells it the time.
//! Every operation is a function from the state and its arguments to the
//! next state, given by a method of [`SessionView`].

use crate::config::EngineIoConfig;
use crate::config::EngineVersion;
use crate::config::TransportType;
use crate::engine_packet::batch_from;
use crate::engine_packet::batch_len;
use crate::engine_packet::encode_frame_spec;
use crate::engine_packet::encode_text_spec;
use crate::engine_packet::handshake;
use crate::engine_packet::handshake_text;
use crate::engine_packet::lemma_payload_concat;
use crate::engine_packet::lemma_payload_push;
use crate::engine_packet::packets_view;
use crate::engine_packet::payload_spec;
use crate::engine_packet::EnginePacket;
use crate::engine_packet::EnginePacketView;
use crate::engine_packet::Frame;
use crate::engine_packet::FrameView;
use crate::engine_packet::SEPARATOR;
use crate::errors::DisconnectReason;
use crate::errors::Error;
use crate::sid::Sid;
use crate::text::append;
use vstd::prelude::*;

verus! {

/// Where a session stands in its life.
#[derive(Clone, Copy, Debug, PartialEq, Eq, Structural)]
pub enum SessionState {
    /// Created; the handshake is queued and not yet written.
    Opening,
    /// In service.
    Open,
    /// In service on long-polling while a WebSocket is being probed.
    Upgrading,
    /// Closed to producers; the queue, which ends in a close packet, is
    /// still being written.
    Closing,
    /// Terminal.
    Closed,
}

/// How a long-poll request is received.
#[derive(Clone, Copy, Debug, PartialEq, Eq, Structural)]
pub enum PollStatus {
    /// The request now waits for data.
    Accepted,
    /// The session has left long-polling.
    NotPolling,
    /// The session is closed.
    Closed,
    /// Another request is already waiting; the session is closing.
    Conflict,
}

/// What a packet from the probing WebSocket leads to.
#[derive(Clone, Copy, Debug, PartialEq, Eq, Structural)]
pub enum ProbeOutcome {
    /// The probe was answered: write a probe pong to the WebSocket.
    Answered,
    /// The WebSocket is now the transport. The flag says whether a
    /// long-poll was waiting; it must be answered with a noop.
    Upgraded(bool),
    /// Not a step of the upgrade: drop the WebSocket.
    Rejected,
}

/// What an inbound packet leaves for the layer above.
#[derive(Clone, Debug, PartialEq, Eq)]
pub enum Inbound {
    Nothing,
    Message(Vec<u8>),
    Binary(Vec<u8>),
}

/// The contents of [`Inbound`].
pub enum InboundView {
    Nothing,
    Message(Seq<u8>),
    Binary(Seq<u8>),
}

impl View for Inbound {
    type V = InboundView;

    open spec fn view(&self) -> InboundView {
        match self {
            Inbound::Nothing => InboundView::Nothing,
            Inbound::Message(text) => InboundView::Message(text@),
            Inbound::Binary(data) => InboundView::Binary(data@),
        }
    }
}

/// `now + delay`, clamped to the largest time.
pub open spec fn later(now: u64, delay: u64) -> u64 {
    if now + delay > u64::MAX {
        u64::MAX
    } else {
        (now + delay) as u64
    }
}

/// The mathematical state of a session.
pub struct SessionView {
    pub id: Sid,
    pub protocol: EngineVersion,
    pub state: SessionState,
    /// The transport that carries the session's packets.
    pub transport: TransportType,
    /// Packets that wait to be written, oldest first.
    pub queue: Seq<EnginePacketView>,
    pub close_reason: Option<DisconnectReason>,
    /// A long-poll request waits for data.
    pub poll_pending: bool,
    /// The probing WebSocket has sent its probe.
    pub probed: bool,
    /// A heartbeat was sent and not yet answered.
    pub awaiting_pong: bool,
    /// The time of the next heartbeat event.
    pub deadline: u64,
    pub ping_interval: u64,
    pub ping_timeout: u64,
    pub max_payload: u64,
    pub max_buffer_size: nat,
    pub allow_upgrades: bool,
    /// Every packet that ever entered the queue, in order.
    pub accepted: Seq<EnginePacketView>,
    /// Every packet written to long-poll responses, in order.
    pub polled: Seq<EnginePacketView>,
    /// Every packet written to the WebSocket, in order.
    pub streamed: Seq<EnginePacketView>,
    /// The packets that were still queued when the session closed.
    pub lost: Seq<EnginePacketView>,
}

impl SessionView {
    /// The session takes packets from producers.
    pub open spec fn is_live(self) -> bool {
        self.state is Opening || self.state is Open || self.state is Upgrading
    }

    /// The session has reached its terminal state.
    pub open spec fn is_closed(self) -> bool {
        self.state is Closed
    }

    /// The invariant of a session. Its first line is the queue
    /// discipline: what was written to the transports, what still waits
    /// and what was dropped at the end are, in this order, exactly what
    /// was accepted.
    pub open spec fn wf(self) -> bool {
        &&& self.accepted == self.polled + self.streamed + self.queue + self.lost
        &&& (self.transport is Polling ==> self.streamed.len() == 0)
        &&& (self.state is Closed ==> self.queue.len() == 0 && !self.poll_pending)
        &&& (self.is_live() <==> self.close_reason is None)
        &&& (!self.is_closed() ==> self.lost.len() == 0)
        &&& (self.state is Upgrading ==> self.transport is Polling)
        &&& (self.poll_pending ==> self.transport is Polling)
        &&& (self.probed ==> self.state is Upgrading)
        &&& (self.state is Opening ==> self.queue.len() > 0 && self.polled.len() == 0
            && self.streamed.len() == 0)
        &&& (self.state is Closing ==> self.queue.len() > 0)
    }

    /// A fresh session: the handshake is queued, the first heartbeat is
    /// scheduled.
    pub open spec fn fresh(
        id: Sid,
        protocol: EngineVersion,
        transport: TransportType,
        config: EngineIoConfig,
        now: u64,
    ) -> SessionView {
        let upgrades = transport is Polling && config.allow_upgrades && config.websocket;
        let open = EnginePacketView::Open(
            handshake_text(
                id,
                upgrades,
                config.ping_interval,
                config.ping_timeout,
                config.max_payload,
            ),
        );
        SessionView {
            id,
            protocol,
            state: SessionState::Opening,
            transport,
            queue: seq![open],
            close_reason: None,
            poll_pending: false,
            probed: false,
            awaiting_pong: false,
            deadline: match protocol {
                EngineVersion::V4 => later(now, config.ping_interval),
                EngineVersion::V3 => later(now, later(config.ping_interval, config.ping_timeout)),
            },
            ping_interval: config.ping_interval,
            ping_timeout: config.ping_timeout,
            max_payload: config.max_payload,
            max_buffer_size: config.max_buffer_size as nat,
            allow_upgrades: upgrades,
            accepted: seq![open],
            polled: Seq::empty(),
            streamed: Seq::empty(),
            lost: Seq::empty(),
        }
    }

    /// Whether a close frame can still be written for this reason: not
    /// when the transport failed or the peer fell silent.
    pub open spec fn permits_close_frame(reason: DisconnectReason) -> bool {
        !(reason is TransportError || reason is HeartbeatTimeout)
    }

    /// Closing. A live session stops taking packets and records the
    /// reason. Where a close frame can still be written it is queued and
    /// the session is `Closing`; otherwise the queue is dropped and the
    /// session is `Closed`. A session that is not live is left as it is.
    pub open spec fn close(self, reason: DisconnectReason) -> SessionView {
        if !self.is_live() {
            self
        } else if Self::permits_close_frame(reason) {
            SessionView {
                state: SessionState::Closing,
                close_reason: Some(reason),
                queue: self.queue.push(EnginePacketView::Close),
                accepted: self.accepted.push(EnginePacketView::Close),
                probed: false,
                ..self
            }
        } else {
            SessionView {
                state: SessionState::Closed,
                close_reason: Some(reason),
                queue: Seq::empty(),
                lost: self.queue,
                poll_pending: false,
                probed: false,
                ..self
            }
        }
    }

    /// The end of the transport: whatever still waits is dropped and the
    /// session is `Closed`. A reason recorded earlier stays; a live
    /// session gets `TransportClose`.
    pub open spec fn shutdown(self) -> SessionView {
        if self.is_closed() {
            self
        } else {
            SessionView {
                state: SessionState::Closed,
                close_reason: if self.close_reason is Some {
                    self.close_reason
                } else {
                    Some(DisconnectReason::TransportClose)
                },
                queue: Seq::empty(),
                lost: self.queue,
                poll_pending: false,
                probed: false,
                ..self
            }
        }
    }

    /// Whether `send` takes a packet.
    pub open spec fn send_result(self) -> Result<(), Error> {
        if !self.is_live() {
            Err(Error::SessionClosed)
        } else if self.queue.len() >= self.max_buffer_size {
            Err(Error::BufferFull)
        } else {
            Ok(())
        }
    }

    /// Sending. A live session with room appends the packet to its queue.
    /// A live session without room closes with `TransportError`. A
    /// session that is not live is left as it is.
    pub open spec fn send(self, p: EnginePacketView) -> SessionView {
        match self.send_result() {
            Ok(_) => SessionView {
                queue: self.queue.push(p),
                accepted: self.accepted.push(p),
                ..self
            },
            Err(Error::BufferFull) => self.close(DisconnectReason::TransportError),
            Err(_) => self,
        }
    }

    /// The state after packets were written: the handshake has left, so
    /// an opening session is open; a closing session whose queue ran dry
    /// is closed.
    pub open spec fn settle(self) -> SessionView {
        SessionView {
            state: match self.state {
                SessionState::Opening => SessionState::Open,
                SessionState::Closing => if self.queue.len() == 0 {
                    SessionState::Closed
                } else {
                    SessionState::Closing
                },
                other => other,
            },
            ..self
        }
    }

    /// How a long-poll request is received.
    pub open spec fn poll_status(self) -> PollStatus {
        if self.is_closed() {
            PollStatus::Closed
        } else if self.transport is Websocket {
            PollStatus::NotPolling
        } else if self.poll_pending {
            PollStatus::Conflict
        } else {
            PollStatus::Accepted
        }
    }

    /// A long-poll request arrives. It waits, unless the session is
    /// closed or has left long-polling. A second request while one waits
    /// closes the session with `MultipleHttpPollingError`.
    pub open spec fn poll_request(self) -> SessionView {
        match self.poll_status() {
            PollStatus::Accepted => SessionView { poll_pending: true, ..self },
            PollStatus::Conflict => self.close(DisconnectReason::MultipleHttpPollingError),
            _ => self,
        }
    }

    /// A waiting long-poll can be answered with data.
    pub open spec fn poll_ready(self) -> bool {
        self.poll_pending && self.queue.len() > 0
    }

    /// The packets that the next long-poll response carries.
    pub open spec fn poll_batch(self) -> Seq<EnginePacketView> {
        self.queue.take(batch_len(self.queue, self.max_payload as nat) as int)
    }

    /// The body of the response to the waiting long-poll, where there is
    /// data for it.
    pub open spec fn poll_body(self) -> Option<Seq<u8>> {
        if self.poll_ready() {
            Some(payload_spec(self.poll_batch()))
        } else {
            None
        }
    }

    /// Answering the waiting long-poll: the batch leaves the queue.
    pub open spec fn poll_reply(self) -> SessionView {
        if self.poll_ready() {
            (SessionView {
                queue: self.queue.skip(batch_len(self.queue, self.max_payload as nat) as int),
                polled: self.polled + self.poll_batch(),
                poll_pending: false,
                ..self
            }).settle()
        } else {
            self
        }
    }

    /// The long-poll has waited its time with nothing to send.
    pub open spec fn poll_idle(self) -> bool {
        self.poll_pending && self.queue.len() == 0
    }

    /// Releasing an idle long-poll; it is answered with a noop.
    pub open spec fn poll_deadline(self) -> SessionView {
        if self.poll_idle() {
            SessionView { poll_pending: false, ..self }
        } else {
            self
        }
    }

    /// The WebSocket has something to write.
    pub open spec fn frame_ready(self) -> bool {
        self.transport is Websocket && self.queue.len() > 0
    }

    /// The next WebSocket message, where there is one.
    pub open spec fn frame(self) -> Option<FrameView> {
        if self.frame_ready() {
            Some(encode_frame_spec(self.queue[0]))
        } else {
            None
        }
    }

    /// Writing the next WebSocket message: the head leaves the queue.
    pub open spec fn next_frame(self) -> SessionView {
        if self.frame_ready() {
            (SessionView {
                queue: self.queue.skip(1),
                streamed: self.streamed.push(self.queue[0]),
                ..self
            }).settle()
        } else {
            self
        }
    }

    /// A WebSocket may start probing: the session is open on
    /// long-polling and upgrades are allowed.
    pub open spec fn can_upgrade(self) -> bool {
        self.state is Open && self.transport is Polling && self.allow_upgrades
    }

    /// A WebSocket opens for this session. Long-polling stays
    /// authoritative.
    pub open spec fn begin_upgrade(self) -> SessionView {
        if self.can_upgrade() {
            SessionView { state: SessionState::Upgrading, probed: false, ..self }
        } else {
            self
        }
    }

    /// What a packet from the probing WebSocket leads to: the probe is
    /// answered once, the upgrade packet behind it completes the upgrade,
    /// and anything else is rejected.
    pub open spec fn probe_outcome(self, p: EnginePacketView) -> ProbeOutcome {
        if !(self.state is Upgrading) {
            ProbeOutcome::Rejected
        } else if p == EnginePacketView::Ping(true) && !self.probed {
            ProbeOutcome::Answered
        } else if p == EnginePacketView::Upgrade && self.probed {
            ProbeOutcome::Upgraded(self.poll_pending)
        } else {
            ProbeOutcome::Rejected
        }
    }

    /// A packet arrives on the probing WebSocket. The probe is noted; the
    /// upgrade packet behind it makes the WebSocket the transport and
    /// releases the waiting long-poll; anything else cancels the upgrade.
    pub open spec fn probe(self, p: EnginePacketView) -> SessionView {
        match self.probe_outcome(p) {
            ProbeOutcome::Answered => SessionView { probed: true, ..self },
            ProbeOutcome::Upgraded(_) => SessionView {
                state: SessionState::Open,
                transport: TransportType::Websocket,
                probed: false,
                poll_pending: false,
                ..self
            },
            ProbeOutcome::Rejected => self.cancel_upgrade(),
        }
    }

    /// The upgrade did not finish in time, or went wrong: the session
    /// stays on long-polling.
    pub open spec fn cancel_upgrade(self) -> SessionView {
        if self.state is Upgrading {
            SessionView { state: SessionState::Open, probed: false, ..self }
        } else {
            self
        }
    }

    /// The clock says `now`. In version 4 the server pings every
    /// `ping_interval` and closes with `HeartbeatTimeout` when the pong
    /// is not there `ping_timeout` later. In version 3 the client pings,
    /// and the server closes when no ping came before the deadline.
    pub open spec fn tick(self, now: u64) -> SessionView {
        if !self.is_live() || now < self.deadline {
            self
        } else if self.protocol is V3 || self.awaiting_pong {
            self.close(DisconnectReason::HeartbeatTimeout)
        } else {
            (SessionView {
                awaiting_pong: true,
                deadline: later(now, self.ping_timeout),
                ..self
            }).send(EnginePacketView::Ping(false))
        }
    }

    /// A packet arrives on the session's transport at `now`.
    ///
    /// Messages and binary data are handed up. A heartbeat from the side
    /// whose turn it is moves the deadline; a version 3 ping is answered
    /// with a pong. A close packet closes with `TransportClose`. A noop,
    /// and a pong that answers nothing, are ignored. Handshake, probe
    /// and upgrade packets, and a heartbeat from the wrong side, close
    /// with `PacketParsingError`. A session that is not live ignores
    /// everything.
    pub open spec fn receive(self, p: EnginePacketView, now: u64) -> SessionView {
        if !self.is_live() {
            self
        } else {
            match p {
                EnginePacketView::Message(_) => self,
                EnginePacketView::Binary(_) => self,
                EnginePacketView::Noop => self,
                EnginePacketView::Close => self.close(DisconnectReason::TransportClose),
                EnginePacketView::Ping(false) => if self.protocol is V3 {
                    (SessionView {
                        deadline: later(now, later(self.ping_interval, self.ping_timeout)),
                        ..self
                    }).send(EnginePacketView::Pong(false))
                } else {
                    self.close(DisconnectReason::PacketParsingError)
                },
                EnginePacketView::Pong(false) => if self.protocol is V3 {
                    self.close(DisconnectReason::PacketParsingError)
                } else if self.awaiting_pong {
                    SessionView {
                        awaiting_pong: false,
                        deadline: later(now, self.ping_interval),
                        ..self
                    }
                } else {
                    self
                },
                _ => self.close(DisconnectReason::PacketParsingError),
            }
        }
    }

    /// What an inbound packet leaves for the layer above.
    pub open spec fn inbound(self, p: EnginePacketView) -> InboundView {
        if !self.is_live() {
            InboundView::Nothing
        } else {
            match p {
                EnginePacketView::Message(text) => InboundView::Message(text),
                EnginePacketView::Binary(data) => InboundView::Binary(data),
                _ => InboundView::Nothing,
            }
        }
    }
}

/// Everything that can happen to a session.
pub enum SessionEvent {
    Send(EnginePacketView),
    Close(DisconnectReason),
    Shutdown,
    PollRequest,
    PollReply,
    PollDeadline,
    NextFrame,
    BeginUpgrade,
    Probe(EnginePacketView),
    CancelUpgrade,
    Tick(u64),
    Receive(EnginePacketView, u64),
}

impl SessionView {
    /// The state after an event.
    pub open spec fn step(self, event: SessionEvent) -> SessionView {
        match event {
            SessionEvent::Send(p) => self.send(p),
            SessionEvent::Close(reason) => self.close(reason),
            SessionEvent::Shutdown => self.shutdown(),
            SessionEvent::PollRequest => self.poll_request(),
            SessionEvent::PollReply => self.poll_reply(),
            SessionEvent::PollDeadline => self.poll_deadline(),
            SessionEvent::NextFrame => self.next_frame(),
            SessionEvent::BeginUpgrade => self.begin_upgrade(),
            SessionEvent::Probe(p) => self.probe(p),
            SessionEvent::CancelUpgrade => self.cancel_upgrade(),
            SessionEvent::Tick(now) => self.tick(now),
            SessionEvent::Receive(p, now) => self.receive(p, now),
        }
    }

    /// What an event writes to a long-poll response, as packets.
    pub open spec fn step_polled(self, event: SessionEvent) -> Seq<EnginePacketView> {
        match event {
            SessionEvent::PollReply => if self.poll_ready() {
                self.poll_batch()
            } else {
                Seq::empty()
            },
            _ => Seq::empty(),
        }
    }
}


proof fn lemma_close_wf(s: SessionView, reason: DisconnectReason)
    requires
        s.wf(),
    ensures
        s.close(reason).wf(),
{
    let t = s.close(reason);
    assert(t.accepted =~= t.polled + t.streamed + t.queue + t.lost);
}

proof fn lemma_shutdown_wf(s: SessionView)
    requires
        s.wf(),
    ensures
        s.shutdown().wf(),
{
    let t = s.shutdown();
    assert(t.accepted =~= t.polled + t.streamed + t.queue + t.lost);
}

proof fn lemma_send_wf(s: SessionView, p: EnginePacketView)
    requires
        s.wf(),
    ensures
        s.send(p).wf(),
{
    let t = s.send(p);
    lemma_close_wf(s, DisconnectReason::TransportError);
    assert(t.accepted =~= t.polled + t.streamed + t.queue + t.lost);
}

proof fn lemma_poll_reply_wf(s: SessionView)
    requires
        s.wf(),
    ensures
        s.poll_reply().wf(),
{
    let t = s.poll_reply();
    if s.poll_ready() {
        let k = batch_len(s.queue, s.max_payload as nat) as int;
        lemma_batch_len(s.queue, s.max_payload as nat);
        assert(s.queue =~= s.queue.take(k) + s.queue.skip(k));
        assert(t.accepted =~= t.polled + t.streamed + t.queue + t.lost);
    }
}

proof fn lemma_next_frame_wf(s: SessionView)
    requires
        s.wf(),
    ensures
        s.next_frame().wf(),
{
    let t = s.next_frame();
    if s.frame_ready() {
        assert(s.queue =~= seq![s.queue[0]] + s.queue.skip(1));
        assert(t.accepted =~= t.polled + t.streamed + t.queue + t.lost);
    }
}

proof fn lemma_tick_wf(s: SessionView, now: u64)
    requires
        s.wf(),
    ensures
        s.tick(now).wf(),
{
    lemma_close_wf(s, DisconnectReason::HeartbeatTimeout);
    let armed = SessionView { awaiting_pong: true, deadline: later(now, s.ping_timeout), ..s };
    if s.wf() && s.is_live() {
        assert(armed.wf());
        lemma_send_wf(armed, EnginePacketView::Ping(false));
    }
}

proof fn lemma_receive_wf(s: SessionView, p: EnginePacketView, now: u64)
    requires
        s.wf(),
    ensures
        s.receive(p, now).wf(),
{
    lemma_close_wf(s, DisconnectReason::TransportClose);
    lemma_close_wf(s, DisconnectReason::PacketParsingError);
    let moved = SessionView {
        deadline: later(now, later(s.ping_interval, s.ping_timeout)),
        ..s
    };
    if s.is_live() {
        assert(moved.wf());
        lemma_send_wf(moved, EnginePacketView::Pong(false));
    }
}

/// Every event keeps the invariant of a session.
pub proof fn lemma_step_wf(s: SessionView, event: SessionEvent)
    requires
        s.wf(),
    ensures
        s.step(event).wf(),
{
    match event {
        SessionEvent::Send(p) => lemma_send_wf(s, p),
        SessionEvent::Close(reason) => lemma_close_wf(s, reason),
        SessionEvent::Shutdown => lemma_shutdown_wf(s),
        SessionEvent::PollRequest => lemma_close_wf(s, DisconnectReason::MultipleHttpPollingError),
        SessionEvent::PollReply => lemma_poll_reply_wf(s),
        SessionEvent::PollDeadline => {},
        SessionEvent::NextFrame => lemma_next_frame_wf(s),
        SessionEvent::BeginUpgrade => {},
        SessionEvent::Probe(p) => {},
        SessionEvent::CancelUpgrade => {},
        SessionEvent::Tick(now) => lemma_tick_wf(s, now),
        SessionEvent::Receive(p, now) => lemma_receive_wf(s, p, now),
    }
}

/// A polling batch is never empty, never reaches past the queue, fits the
/// limit unless it is a single packet, and stops only where the next
/// packet would no longer fit.
pub proof fn lemma_batch_len(queue: Seq<EnginePacketView>, max_payload: nat)
    requires
        queue.len() > 0,
    ensures
        1 <= batch_len(queue, max_payload) <= queue.len(),
        batch_len(queue, max_payload) > 1 ==> payload_spec(
            queue.take(batch_len(queue, max_payload) as int),
        ).len() <= max_payload,
        batch_len(queue, max_payload) < queue.len() ==> payload_spec(
            queue.take(batch_len(queue, max_payload) as int + 1),
        ).len() > max_payload,
{
    lemma_batch_from(queue, 1, max_payload);
}

proof fn lemma_batch_from(queue: Seq<EnginePacketView>, taken: nat, max_payload: nat)
    requires
        taken <= queue.len(),
    ensures
        taken <= batch_from(queue, taken, max_payload) <= queue.len(),
        batch_from(queue, taken, max_payload) > taken ==> payload_spec(
            queue.take(batch_from(queue, taken, max_payload) as int),
        ).len() <= max_payload,
        batch_from(queue, taken, max_payload) < queue.len() ==> payload_spec(
            queue.take(batch_from(queue, taken, max_payload) as int + 1),
        ).len() > max_payload,
    decreases queue.len() - taken,
{
    if taken < queue.len() && payload_spec(queue.take(taken as int + 1)).len() <= max_payload {
        lemma_batch_from(queue, taken + 1, max_payload);
    }
}

/// The first long-poll of a fresh session is answered with the
/// handshake packet alone, and the session is open from then on.
pub proof fn lemma_first_batch(s: SessionView)
    requires
        s.queue.len() == 1,
        s.poll_pending,
    ensures
        s.poll_body() == Some(encode_text_spec(s.queue[0])),
        s.poll_reply().queue.len() == 0,
{
    assert(s.queue.take(1) =~= s.queue);
    assert(s.queue.skip(1) =~= Seq::<EnginePacketView>::empty());
}

/// `Closed` is terminal: no event changes a closed session, `send` is
/// refused, and no transport gets anything to write.
pub proof fn law_closed_is_terminal(s: SessionView, event: SessionEvent)
    requires
        s.wf(),
        s.is_closed(),
    ensures
        s.step(event) == s,
        s.send_result() == Err::<(), Error>(Error::SessionClosed),
        s.poll_body() is None,
        s.frame() is None,
        !s.poll_idle(),
{
}

/// The way to `Closed` is one-way: once a session has stopped being
/// live, no event makes it live again, changes the recorded reason, or
/// puts another packet in its queue.
pub proof fn law_closing_is_monotonic(s: SessionView, event: SessionEvent)
    requires
        s.wf(),
        !s.is_live(),
    ensures
        !s.step(event).is_live(),
        s.step(event).close_reason == s.close_reason,
        s.step(event).accepted == s.accepted,
        s.is_closed() ==> s.step(event).is_closed(),
{
}

/// Closing twice is closing once, with the first reason.
pub proof fn law_close_idempotent(
    s: SessionView,
    first: DisconnectReason,
    second: DisconnectReason,
)
    ensures
        s.close(first).close(second) == s.close(first),
        s.is_live() ==> s.close(first).close_reason == Some(first),
{
}

/// Once the WebSocket is the transport it stays the transport, and
/// nothing more is written to long-polling: no event adds to what was
/// polled, a long-poll request is turned away, and there is neither a
/// body nor a noop for one.
pub proof fn law_upgrade_ends_polling(s: SessionView, event: SessionEvent)
    requires
        s.wf(),
        s.transport is Websocket,
    ensures
        s.step(event).transport is Websocket,
        s.step(event).polled == s.polled,
        s.step_polled(event).len() == 0,
        s.poll_status() != PollStatus::Accepted,
        s.poll_body() is None,
        !s.poll_idle(),
{
}

/// An upgrade that completes makes the WebSocket the transport.
pub proof fn law_upgrade_switches_transport(s: SessionView, p: EnginePacketView)
    requires
        s.wf(),
        s.probe_outcome(p) is Upgraded,
    ensures
        s.probe(p).transport is Websocket,
        s.probe(p).state is Open,
        s.probe(p).queue == s.queue,
        !s.probe(p).poll_pending,
{
}

/// The queue is first in, first out, on every path.
///
/// While a session is on long-polling, what was polled, what still waits
/// and what was dropped at the end are, in this order, exactly what was
/// accepted. What an event writes to long-polling is a prefix of the
/// queue and is appended to what was polled before; the body of a
/// response is the payload of exactly those packets; what was written to
/// the transports is always a prefix of what was accepted; and what was
/// accepted only grows at its end. A response ends before the end of the
/// queue only where the next packet would take it past `max_payload`.
pub proof fn law_polling_order(s: SessionView, event: SessionEvent)
    requires
        s.wf(),
    ensures
        s.transport is Polling ==> s.polled + s.queue + s.lost == s.accepted,
        s.step(event).polled == s.polled + s.step_polled(event),
        s.step_polled(event).is_prefix_of(s.queue),
        (s.polled + s.streamed).is_prefix_of(s.accepted),
        s.accepted.is_prefix_of(s.step(event).accepted),
        s.poll_body() matches Some(body) ==> body == payload_spec(
            s.step_polled(SessionEvent::PollReply),
        ),
        s.poll_ready() && s.poll_batch().len() < s.queue.len() ==> payload_spec(
            s.queue.take(s.poll_batch().len() as int + 1),
        ).len() > s.max_payload,
{
    let t = s.step(event);
    assert(s.polled + Seq::<EnginePacketView>::empty() =~= s.polled);
    if s.poll_ready() {
        lemma_batch_len(s.queue, s.max_payload as nat);
    }
    assert(s.accepted =~= (s.polled + s.streamed) + (s.queue + s.lost));
    if s.transport is Polling {
        assert(s.streamed =~= Seq::<EnginePacketView>::empty());
        assert(s.polled + s.queue + s.lost =~= s.accepted);
    }
}

/// Two long-poll responses in a row carry, joined by a separator, the
/// payload of one stretch of the queue: nothing is lost, repeated or
/// reordered between them.
pub proof fn law_polling_concatenates(s: SessionView)
    requires
        s.wf(),
        s.poll_ready(),
        s.poll_reply().poll_request().poll_ready(),
    ensures
        ({
            let next = s.poll_reply().poll_request();
            let first = s.poll_batch();
            let second = next.poll_batch();
            &&& s.poll_body()->0 + seq![SEPARATOR] + next.poll_body()->0 == payload_spec(
                first + second,
            )
            &&& first + second == s.queue.take((first.len() + second.len()) as int)
            &&& next.poll_reply().polled == s.polled + first + second
        }),
{
    let next = s.poll_reply().poll_request();
    let first = s.poll_batch();
    let second = next.poll_batch();
    lemma_batch_len(s.queue, s.max_payload as nat);
    lemma_batch_len(next.queue, next.max_payload as nat);
    lemma_payload_concat(first, second);
    assert(next.queue == s.queue.skip(first.len() as int));
    assert(first + second =~= s.queue.take((first.len() + second.len()) as int));
    assert(next.poll_reply().polled =~= s.polled + first + second);
}

/// A heartbeat that is not answered ends the session. When the time for
/// a heartbeat has come and the queue has room for it, the ping is queued
/// and the session waits for the pong; it stays as it is until
/// `ping_timeout` later, and from then on the next look at the clock
/// closes it with `HeartbeatTimeout`. Without room for the ping the
/// session closes with `TransportError` at once.
pub proof fn law_heartbeat_timeout(s: SessionView, t1: u64, t2: u64)
    requires
        s.wf(),
        s.is_live(),
        s.protocol is V4,
        !s.awaiting_pong,
        t1 >= s.deadline,
    ensures
        forall|t: u64| t < s.deadline ==> #[trigger] s.tick(t) == s,
        s.queue.len() >= s.max_buffer_size ==> s.tick(t1).is_closed() && s.tick(t1).close_reason
            == Some(DisconnectReason::TransportError),
        s.queue.len() < s.max_buffer_size ==> {
            let waiting = s.tick(t1);
            &&& waiting.is_live()
            &&& waiting.awaiting_pong
            &&& waiting.queue == s.queue.push(EnginePacketView::Ping(false))
            &&& waiting.deadline == later(t1, s.ping_timeout)
            &&& t2 < waiting.deadline ==> waiting.tick(t2) == waiting
            &&& t2 >= waiting.deadline ==> waiting.tick(t2).is_closed() && waiting.tick(
                t2,
            ).close_reason == Some(DisconnectReason::HeartbeatTimeout)
        },
{
}

/// In version 3 the peer pings: a session that hears no ping before its
/// deadline is closed with `HeartbeatTimeout` at the next look at the
/// clock, and not before.
pub proof fn law_heartbeat_timeout_v3(s: SessionView, t: u64)
    requires
        s.wf(),
        s.is_live(),
        s.protocol is V3,
    ensures
        t < s.deadline ==> s.tick(t) == s,
        t >= s.deadline ==> s.tick(t).is_closed() && s.tick(t).close_reason == Some(
            DisconnectReason::HeartbeatTimeout,
        ),
{
}

/// A second long-poll while one waits closes the session for
/// `MultipleHttpPollingError`: it stops being live, its queue ends in a
/// close packet, and the request that waited can be answered at once.
pub proof fn law_second_poll_closes(s: SessionView)
    requires
        s.wf(),
        s.is_live(),
        s.poll_pending,
    ensures
        s.poll_status() == PollStatus::Conflict,
        s.poll_request().state is Closing,
        s.poll_request().close_reason == Some(DisconnectReason::MultipleHttpPollingError),
        s.poll_request().queue == s.queue.push(EnginePacketView::Close),
        s.poll_request().poll_ready(),
{
}

/// The session of one Engine.IO client.
pub struct Session {
    id: Sid,
    protocol: EngineVersion,
    state: SessionState,
    transport: TransportType,
    queue: Vec<EnginePacket>,
    close_reason: Option<DisconnectReason>,
    poll_pending: bool,
    probed: bool,
    awaiting_pong: bool,
    deadline: u64,
    ping_interval: u64,
    ping_timeout: u64,
    max_payload: u64,
    max_buffer_size: usize,
    allow_upgrades: bool,
    accepted: Ghost<Seq<EnginePacketView>>,
    polled: Ghost<Seq<EnginePacketView>>,
    streamed: Ghost<Seq<EnginePacketView>>,
    lost: Ghost<Seq<EnginePacketView>>,
}

impl View for Session {
    type V = SessionView;

    closed spec fn view(&self) -> SessionView {
        SessionView {
            id: self.id,
            protocol: self.protocol,
            state: self.state,
            transport: self.transport,
            queue: packets_view(self.queue@),
            close_reason: self.close_reason,
            poll_pending: self.poll_pending,
            probed: self.probed,
            awaiting_pong: self.awaiting_pong,
            deadline: self.deadline,
            ping_interval: self.ping_interval,
            ping_timeout: self.ping_timeout,
            max_payload: self.max_payload,
            max_buffer_size: self.max_buffer_size as nat,
            allow_upgrades: self.allow_upgrades,
            accepted: self.accepted@,
            polled: self.polled@,
            streamed: self.streamed@,
            lost: self.lost@,
        }
    }
}

fn time_after(now: u64, delay: u64) -> (t: u64)
    ensures
        t == later(now, delay),
{
    if delay > u64::MAX - now {
        u64::MAX
    } else {
        now + delay
    }
}

impl Session {
    /// Creates the session of a client that just shook hands on
    /// `transport` at time `now`. The handshake packet is queued; it
    /// offers the upgrade to a WebSocket when the session starts on
    /// long-polling and the configuration has WebSockets and upgrades
    /// switched on.
    pub fn new(
        id: Sid,
        protocol: EngineVersion,
        transport: TransportType,
        config: &EngineIoConfig,
        now: u64,
    ) -> (s: Session)
        ensures
            s@ == SessionView::fresh(id, protocol, transport, *config, now),
            s@.wf(),
    {
        let upgrades = match transport {
            TransportType::Polling => config.allow_upgrades && config.websocket,
            TransportType::Websocket => false,
        };
        let open = EnginePacket::Open(
            handshake(id, upgrades, config.ping_interval, config.ping_timeout, config.max_payload),
        );
        let deadline = match protocol {
            EngineVersion::V4 => time_after(now, config.ping_interval),
            EngineVersion::V3 => time_after(
                now,
                time_after(config.ping_interval, config.ping_timeout),
            ),
        };
        let ghost first = seq![open@];
        let ghost none = Seq::<EnginePacketView>::empty();
        let mut queue: Vec<EnginePacket> = Vec::new();
        queue.push(open);
        let s = Session {
            id,
            protocol,
            state: SessionState::Opening,
            transport,
            queue,
            close_reason: None,
            poll_pending: false,
            probed: false,
            awaiting_pong: false,
            deadline,
            ping_interval: config.ping_interval,
            ping_timeout: config.ping_timeout,
            max_payload: config.max_payload,
            max_buffer_size: config.max_buffer_size,
            allow_upgrades: upgrades,
            accepted: Ghost(first),
            polled: Ghost(none),
            streamed: Ghost(none),
            lost: Ghost(none),
        };
        proof {
            let v = SessionView::fresh(id, protocol, transport, *config, now);
            assert(s@.queue =~= v.queue);
            assert(s@.accepted =~= s@.polled + s@.streamed + s@.queue + s@.lost);
        }
        s
    }

    /// The id of the session.
    pub fn id(&self) -> (id: Sid)
        ensures
            id == self@.id,
    {
        self.id
    }

    /// The protocol version that the peer speaks.
    pub fn protocol(&self) -> (protocol: EngineVersion)
        ensures
            protocol == self@.protocol,
    {
        self.protocol
    }

    /// Where the session stands in its life.
    pub fn state(&self) -> (state: SessionState)
        ensures
            state == self@.state,
    {
        self.state
    }

    /// The transport that carries the session's packets.
    pub fn transport(&self) -> (transport: TransportType)
        ensures
            transport == self@.transport,
    {
        self.transport
    }

    /// Why the session was closed, once it was.
    pub fn close_reason(&self) -> (reason: Option<DisconnectReason>)
        ensures
            reason == self@.close_reason,
    {
        self.close_reason
    }

    /// Whether the session has reached its terminal state.
    pub fn is_closed(&self) -> (closed: bool)
        ensures
            closed == self@.is_closed(),
    {
        match self.state {
            SessionState::Closed => true,
            _ => false,
        }
    }

    /// Whether the session still takes packets.
    pub fn is_live(&self) -> (live: bool)
        ensures
            live == self@.is_live(),
    {
        match self.state {
            SessionState::Opening | SessionState::Open | SessionState::Upgrading => true,
            _ => false,
        }
    }

    /// The time that a probing WebSocket has to finish the upgrade: the
    /// heartbeat timeout.
    pub fn upgrade_timeout(&self) -> (timeout: u64)
        ensures
            timeout == self@.ping_timeout,
    {
        self.ping_timeout
    }

    /// Number of packets that wait to be written.
    pub fn pending(&self) -> (n: usize)
        ensures
            n == self@.queue.len(),
    {
        self.queue.len()
    }

    /// Whether a long-poll request waits for data.
    pub fn poll_pending(&self) -> (pending: bool)
        ensures
            pending == self@.poll_pending,
    {
        self.poll_pending
    }

    /// Closes the session; see [`SessionView::close`].
    pub fn close(&mut self, reason: DisconnectReason)
        requires
            old(self)@.wf(),
        ensures
            final(self)@ == old(self)@.close(reason),
            final(self)@.wf(),
    {
        if !self.is_live() {
            return ;
        }
        let with_frame = match reason {
            DisconnectReason::TransportError | DisconnectReason::HeartbeatTimeout => false,
            _ => true,
        };
        if with_frame {
            self.state = SessionState::Closing;
            self.close_reason = Some(reason);
            self.queue.push(EnginePacket::Close);
            self.accepted = Ghost(self.accepted@.push(EnginePacketView::Close));
            self.probed = false;
        } else {
            self.drop_queue(reason);
        }
        proof {
            assert(self@.queue =~= old(self)@.close(reason).queue);
            lemma_close_wf(old(self)@, reason);
        }
    }

    fn drop_queue(&mut self, reason: DisconnectReason)
        requires
            old(self)@.lost.len() == 0,
        ensures
            final(self)@ == (SessionView {
                state: SessionState::Closed,
                close_reason: Some(reason),
                queue: Seq::empty(),
                lost: old(self)@.queue,
                poll_pending: false,
                probed: false,
                ..old(self)@
            }),
    {
        self.state = SessionState::Closed;
        self.close_reason = Some(reason);
        self.lost = Ghost(packets_view(self.queue@));
        self.queue = Vec::new();
        self.poll_pending = false;
        self.probed = false;
        assert(self@.queue =~= Seq::empty());
    }

    /// Ends the session at once; see [`SessionView::shutdown`].
    pub fn shutdown(&mut self)
        requires
            old(self)@.wf(),
        ensures
            final(self)@ == old(self)@.shutdown(),
            final(self)@.wf(),
    {
        if self.is_closed() {
            return ;
        }
        let reason = match self.close_reason {
            Some(reason) => reason,
            None => DisconnectReason::TransportClose,
        };
        self.drop_queue(reason);
        proof {
            lemma_shutdown_wf(old(self)@);
        }
    }

    /// Queues a packet for the peer; see [`SessionView::send`].
    ///
    /// Fails with `SessionClosed` once the session has stopped being
    /// live, and with `BufferFull` when the queue is at its cap, in which
    /// case the session closes with `TransportError`.
    pub fn send(&mut self, packet: EnginePacket) -> (r: Result<(), Error>)
        requires
            old(self)@.wf(),
        ensures
            r == old(self)@.send_result(),
            final(self)@ == old(self)@.send(packet@),
            final(self)@.wf(),
    {
        if !self.is_live() {
            return Err(Error::SessionClosed);
        }
        if self.queue.len() >= self.max_buffer_size {
            self.close(DisconnectReason::TransportError);
            return Err(Error::BufferFull);
        }
        let ghost p = packet@;
        self.queue.push(packet);
        self.accepted = Ghost(self.accepted@.push(p));
        proof {
            assert(self@.queue =~= old(self)@.queue.push(p));
            lemma_send_wf(old(self)@, p);
        }
        Ok(())
    }

    /// Queues a text message.
    pub fn emit(&mut self, msg: Vec<u8>) -> (r: Result<(), Error>)
        requires
            old(self)@.wf(),
        ensures
            r == old(self)@.send_result(),
            final(self)@ == old(self)@.send(EnginePacketView::Message(msg@)),
            final(self)@.wf(),
    {
        self.send(EnginePacket::Message(msg))
    }

    /// Queues binary data.
    pub fn emit_binary(&mut self, data: Vec<u8>) -> (r: Result<(), Error>)
        requires
            old(self)@.wf(),
        ensures
            r == old(self)@.send_result(),
            final(self)@ == old(self)@.send(EnginePacketView::Binary(data@)),
            final(self)@.wf(),
    {
        self.send(EnginePacket::Binary(data))
    }

    fn settle(&mut self)
        ensures
            final(self)@ == old(self)@.settle(),
    {
        match self.state {
            SessionState::Opening => {
                self.state = SessionState::Open;
            },
            SessionState::Closing => {
                if self.queue.len() == 0 {
                    self.state = SessionState::Closed;
                }
            },
            _ => {},
        }
    }

    /// Receives a long-poll request; see [`SessionView::poll_request`].
    pub fn poll_request(&mut self) -> (status: PollStatus)
        requires
            old(self)@.wf(),
        ensures
            status == old(self)@.poll_status(),
            final(self)@ == old(self)@.poll_request(),
            final(self)@.wf(),
    {
        proof {
            lemma_close_wf(old(self)@, DisconnectReason::MultipleHttpPollingError);
        }
        if self.is_closed() {
            return PollStatus::Closed;
        }
        match self.transport {
            TransportType::Websocket => {
                return PollStatus::NotPolling;
            },
            TransportType::Polling => {},
        }
        if self.poll_pending {
            self.close(DisconnectReason::MultipleHttpPollingError);
            PollStatus::Conflict
        } else {
            self.poll_pending = true;
            PollStatus::Accepted
        }
    }

    /// Answers the waiting long-poll with as many queued packets as one
    /// response may carry; see [`SessionView::poll_reply`]. `None` when no
    /// request waits or nothing is queued.
    pub fn poll_reply(&mut self) -> (body: Option<Vec<u8>>)
        requires
            old(self)@.wf(),
        ensures
            final(self)@ == old(self)@.poll_reply(),
            final(self)@.wf(),
            match body {
                Some(bytes) => old(self)@.poll_body() == Some(bytes@),
                None => old(self)@.poll_body() is None,
            },
    {
        if !self.poll_pending || self.queue.len() == 0 {
            return None;
        }
        let ghost queue = packets_view(self.queue@);
        let ghost limit = self.max_payload as nat;
        let mut out: Vec<u8> = Vec::new();
        self.queue[0].encode_into(&mut out);
        let mut k: usize = 1;
        proof {
            assert(queue.take(1) =~= seq![queue[0]]);
        }
        while k < self.queue.len()
            invariant
                1 <= k <= self.queue.len(),
                queue == packets_view(self.queue@),
                limit == self.max_payload as nat,
                out@ == payload_spec(queue.take(k as int)),
                batch_len(queue, limit) == batch_from(queue, k as nat, limit),
            ensures
                1 <= k <= self.queue.len(),
                out@ == payload_spec(queue.take(k as int)),
                batch_len(queue, limit) == k,
            decreases self.queue.len() - k,
        {
            let piece = self.queue[k].encode();
            proof {
                assert(queue.take(k + 1) =~= queue.take(k as int).push(queue[k as int]));
                lemma_payload_push(queue.take(k as int), queue[k as int]);
            }
            if out.len() as u64 >= self.max_payload || piece.len() as u64 >= self.max_payload
                - out.len() as u64 {
                break ;
            }
            out.push(SEPARATOR);
            append(&mut out, piece.as_slice());
            k += 1;
        }
        let rest = self.queue.split_off(k);
        self.polled = Ghost(self.polled@ + queue.take(k as int));
        self.queue = rest;
        self.poll_pending = false;
        proof {
            assert(packets_view(self.queue@) =~= queue.skip(k as int));
        }
        self.settle();
        proof {
            lemma_poll_reply_wf(old(self)@);
        }
        Some(out)
    }

    /// Releases a long-poll that waited its time with nothing to send;
    /// see [`SessionView::poll_deadline`]. Returns whether there was one:
    /// it is to be answered with a noop packet.
    pub fn poll_deadline(&mut self) -> (idle: bool)
        requires
            old(self)@.wf(),
        ensures
            idle == old(self)@.poll_idle(),
            final(self)@ == old(self)@.poll_deadline(),
            final(self)@.wf(),
    {
        if self.poll_pending && self.queue.len() == 0 {
            self.poll_pending = false;
            true
        } else {
            false
        }
    }

    /// Takes the next message for the WebSocket off the queue; see
    /// [`SessionView::next_frame`]. `None` when the WebSocket is not the
    /// transport or nothing is queued.
    pub fn next_frame(&mut self) -> (frame: Option<Frame>)
        requires
            old(self)@.wf(),
        ensures
            final(self)@ == old(self)@.next_frame(),
            final(self)@.wf(),
            match frame {
                Some(f) => old(self)@.frame() == Some(f@),
                None => old(self)@.frame() is None,
            },
    {
        match self.transport {
            TransportType::Polling => {
                return None;
            },
            TransportType::Websocket => {},
        }
        if self.queue.len() == 0 {
            return None;
        }
        let ghost queue = packets_view(self.queue@);
        let head = self.queue.remove(0);
        self.streamed = Ghost(self.streamed@.push(head@));
        proof {
            assert(packets_view(self.queue@) =~= queue.skip(1));
        }
        self.settle();
        proof {
            lemma_next_frame_wf(old(self)@);
        }
        Some(head.to_frame())
    }

    /// A WebSocket opens for this session; see
    /// [`SessionView::begin_upgrade`]. Returns whether it may probe.
    pub fn begin_upgrade(&mut self) -> (ok: bool)
        requires
            old(self)@.wf(),
        ensures
            ok == old(self)@.can_upgrade(),
            final(self)@ == old(self)@.begin_upgrade(),
            final(self)@.wf(),
    {
        let open = match self.state {
            SessionState::Open => true,
            _ => false,
        };
        let polling = match self.transport {
            TransportType::Polling => true,
            TransportType::Websocket => false,
        };
        if open && polling && self.allow_upgrades {
            self.state = SessionState::Upgrading;
            self.probed = false;
            true
        } else {
            false
        }
    }

    /// Handles a packet from the probing WebSocket; see
    /// [`SessionView::probe`].
    pub fn probe(&mut self, packet: &EnginePacket) -> (outcome: ProbeOutcome)
        requires
            old(self)@.wf(),
        ensures
            outcome == old(self)@.probe_outcome(packet@),
            final(self)@ == old(self)@.probe(packet@),
            final(self)@.wf(),
    {
        let upgrading = match self.state {
            SessionState::Upgrading => true,
            _ => false,
        };
        if !upgrading {
            return ProbeOutcome::Rejected;
        }
        match packet {
            EnginePacket::Ping(true) => {
                if !self.probed {
                    self.probed = true;
                    return ProbeOutcome::Answered;
                }
            },
            EnginePacket::Upgrade => {
                if self.probed {
                    let waiting = self.poll_pending;
                    self.state = SessionState::Open;
                    self.transport = TransportType::Websocket;
                    self.probed = false;
                    self.poll_pending = false;
                    return ProbeOutcome::Upgraded(waiting);
                }
            },
            _ => {},
        }
        self.cancel_upgrade();
        ProbeOutcome::Rejected
    }

    /// Gives up a pending upgrade; see [`SessionView::cancel_upgrade`].
    pub fn cancel_upgrade(&mut self)
        requires
            old(self)@.wf(),
        ensures
            final(self)@ == old(self)@.cancel_upgrade(),
            final(self)@.wf(),
    {
        match self.state {
            SessionState::Upgrading => {
                self.state = SessionState::Open;
                self.probed = false;
            },
            _ => {},
        }
    }

    /// Tells the session the time; see [`SessionView::tick`].
    pub fn tick(&mut self, now: u64)
        requires
            old(self)@.wf(),
        ensures
            final(self)@ == old(self)@.tick(now),
            final(self)@.wf(),
    {
        if !self.is_live() || now < self.deadline {
            return ;
        }
        let client_pings = match self.protocol {
            EngineVersion::V3 => true,
            EngineVersion::V4 => false,
        };
        if client_pings || self.awaiting_pong {
            self.close(DisconnectReason::HeartbeatTimeout);
        } else {
            self.awaiting_pong = true;
            self.deadline = time_after(now, self.ping_timeout);
            let _ = self.send(EnginePacket::Ping(false));
        }
    }

    /// Handles a packet that arrived on the session's transport at
    /// `now`; see [`SessionView::receive`]. Returns what is left for the
    /// layer above: a message, binary data, or nothing.
    pub fn receive(&mut self, packet: EnginePacket, now: u64) -> (up: Inbound)
        requires
            old(self)@.wf(),
        ensures
            up@ == old(self)@.inbound(packet@),
            final(self)@ == old(self)@.receive(packet@, now),
            final(self)@.wf(),
    {
        if !self.is_live() {
            return Inbound::Nothing;
        }
        let client_pings = match self.protocol {
            EngineVersion::V3 => true,
            EngineVersion::V4 => false,
        };
        match packet {
            EnginePacket::Message(text) => Inbound::Message(text),
            EnginePacket::Binary(data) => Inbound::Binary(data),
            EnginePacket::Noop => Inbound::Nothing,
            EnginePacket::Close => {
                self.close(DisconnectReason::TransportClose);
                Inbound::Nothing
            },
            EnginePacket::Ping(false) => {
                if client_pings {
                    self.deadline = time_after(
                        now,
                        time_after(self.ping_interval, self.ping_timeout),
                    );
                    let _ = self.send(EnginePacket::Pong(false));
                } else {
                    self.close(DisconnectReason::PacketParsingError);
                }
                Inbound::Nothing
            },
            EnginePacket::Pong(false) => {
                if client_pings {
                    self.close(DisconnectReason::PacketParsingError);
                } else if self.awaiting_pong {
                    self.awaiting_pong = false;
                    self.deadline = time_after(now, self.ping_interval);
                }
                Inbound::Nothing
            },
            _ => {
                self.close(DisconnectReason::PacketParsingError);
                Inbound::Nothing
            },
        }
    }
}

} // verus!
