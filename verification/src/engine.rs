//! The Engine.IO endpoint in plain values: what to do with a request,
//! given as its method, query and body, and what to answer.
//!
//! Nothing here reads a socket. Whoever owns the listener turns each
//! request into a call, sends what comes back, and keeps the timers.

use crate::config::TransportType;
use crate::engine_packet::decode_frame_spec;
use crate::engine_packet::decode_payload;
use crate::engine_packet::decode_payload_spec;
use crate::engine_packet::encode_frame_spec;
use crate::engine_packet::packets_view;
use crate::engine_packet::encode_text_spec;
use crate::engine_packet::EnginePacket;
use crate::engine_packet::EnginePacketView;
use crate::engine_packet::Frame;
use crate::engine_packet::FrameView;
use crate::errors::DisconnectReason;
use crate::handler::dispatch;
use crate::handler::dispatch_rel;
use crate::handler::dispatched;
use crate::handler::end_rel;
use crate::handler::lemma_dispatched_none;
use crate::handler::lemma_dispatched_step;
use crate::handler::heartbeat as tick;
use crate::handler::notify_end;
use crate::handler::EngineIoHandler;
use crate::registry::Entry;
use crate::registry::Registry;
use crate::registry::RegistryView;
use crate::request::bytes_opt;
use crate::request::error_body;
use crate::request::error_status;
use crate::request::Method;
use crate::request::RequestError;
use crate::request::Route;
use crate::search::lemma_position;
use crate::search::lemma_position_contains;
use crate::session::lemma_first_batch;
use crate::session::PollStatus;
use crate::session::ProbeOutcome;
use crate::session::Session;
use crate::session::SessionView;
use crate::sid::Sid;
use vstd::prelude::*;

verus! {

/// An HTTP reply: its status and its body.
#[derive(Clone, Debug, PartialEq, Eq)]
pub struct HttpReply {
    pub status: u16,
    pub body: Vec<u8>,
}

/// What becomes of a long-poll GET.
#[derive(Clone, Debug, PartialEq, Eq)]
pub enum GetOutcome {
    /// It is answered at once.
    Reply(HttpReply),
    /// It waits for the session to have data.
    Wait(Sid),
}

/// What becomes of a WebSocket that opens.
#[derive(Clone, Debug, PartialEq, Eq)]
pub enum WsOutcome {
    /// It carries a new session; the frame is the handshake, to be
    /// written first.
    Session(Sid, Frame),
    /// It probes for the upgrade of a polling session.
    Probe(Sid),
    /// It is refused with an HTTP reply.
    Refused(HttpReply),
}

/// What a frame on a probing WebSocket leads to.
#[derive(Clone, Debug, PartialEq, Eq)]
pub enum ProbeReply {
    /// Write this frame, the probe pong, to the WebSocket.
    Pong(Frame),
    /// The WebSocket is now the session's transport. The flag tells
    /// whether a long-poll waits: it is to be answered with a noop.
    Upgraded(bool),
    /// Drop the WebSocket; the session stays on long-polling.
    Drop,
}

/// The reply that turns a request away.
pub open spec fn error_reply(e: RequestError) -> (u16, Seq<u8>) {
    (error_status(e), error_body(e))
}

/// The status and the contents of a reply.
pub open spec fn reply_view(reply: HttpReply) -> (u16, Seq<u8>) {
    (reply.status, reply.body@)
}

/// The body `ok` of the reply to a POST.
pub open spec fn ok_body() -> Seq<u8> {
    seq![111u8, 107]
}

/// The string form of a noop packet, the answer to an idle long-poll.
pub open spec fn noop_body() -> Seq<u8> {
    encode_text_spec(EnginePacketView::Noop)
}

/// The string form of the handshake packet of a new session.
pub open spec fn open_text(s: SessionView) -> Seq<u8> {
    encode_text_spec(s.queue[0])
}

/// The GET is turned away with the error `e`.
pub open spec fn get_refused(outcome: GetOutcome, e: RequestError) -> bool {
    outcome matches GetOutcome::Reply(reply) && reply_view(reply) == error_reply(e)
}

/// The GET is answered with status 200 and `body`.
pub open spec fn get_answered(outcome: GetOutcome, body: Seq<u8>) -> bool {
    outcome matches GetOutcome::Reply(reply) && reply_view(reply) == (200u16, body)
}

/// The handler was told that a session opened: it was given the session
/// in the state `s0` with data that it had made for it, and left the
/// session as `s1` and the data as `d1`; see
/// [`EngineIoHandler::connect_rel`].
pub open spec fn opened<H: EngineIoHandler>(
    pre: &H,
    post: &H,
    s0: SessionView,
    s1: SessionView,
    d1: &H::Data,
) -> bool {
    exists|d0: H::Data| H::data_inv(&d0) && #[trigger] H::connect_rel(pre, post, s0, s1, &d0, d1)
}

/// The registry after the session `sid` was taken out and came back in
/// the state `s`: it stands last now.
pub open spec fn swapped(r: RegistryView, sid: Sid, s: SessionView) -> RegistryView {
    r.removed(sid).inserted(s)
}

/// Builds the reply that turns a request away.
pub fn refuse(e: RequestError) -> (reply: HttpReply)
    ensures
        reply_view(reply) == error_reply(e),
{
    HttpReply { status: e.status(), body: e.body() }
}

fn ok_reply(body: Vec<u8>) -> (reply: HttpReply)
    ensures
        reply_view(reply) == (200u16, body@),
{
    HttpReply { status: 200, body }
}

/// Handles a long-poll GET.
///
/// The request is routed; see [`crate::registry::RegistryView::route`].
/// A request that is turned away changes nothing. A handshake creates
/// the session `fresh`, answers with its handshake packet and then tells
/// the handler that the session opened; it is refused as a `BadRequest`
/// when the id is taken or the handshake asks for a WebSocket. A request
/// of an existing session is received by the session, see
/// [`crate::session::SessionView::poll_request`]: it is answered with
/// what is queued, or waits when nothing is; a second request while one
/// waits is a `BadRequest`, and the handler learns that the session
/// ended.
pub fn polling_get<H: EngineIoHandler>(
    registry: &mut Registry<H::Data>,
    handler: &mut H,
    query: &[u8],
    fresh: Sid,
    now: u64,
) -> (outcome: GetOutcome)
    requires
        old(registry)@.wf(),
        old(handler).inv(),
        data_in_order::<H>(old(registry).data()),
    ensures
        final(registry)@.wf(),
        final(handler).inv(),
        data_in_order::<H>(final(registry).data()),
        final(registry).spec_config() == old(registry).spec_config(),
        ({
            let pre = old(registry)@;
            let post = final(registry)@;
            let config = old(registry).spec_config();
            let quiet = *final(handler) == *old(handler);
            match pre.route(config, Method::Get, query@) {
                Err(e) => get_refused(outcome, e) && post == pre && quiet,
                Ok(Route::Upgrade(_)) => get_refused(outcome, RequestError::BadRequest) && post
                    == pre && quiet,
                Ok(Route::Handshake(version, transport)) => if transport is Websocket
                    || pre.contains(fresh) {
                    get_refused(outcome, RequestError::BadRequest) && post == pre && quiet
                } else {
                    let new = SessionView::fresh(
                        fresh,
                        version,
                        TransportType::Polling,
                        config,
                        now,
                    );
                    &&& get_answered(outcome, open_text(new))
                    &&& post == pre.inserted(post.session(fresh))
                    &&& post.contains(fresh)
                    &&& opened::<H>(
                        &*old(handler),
                        &*final(handler),
                        new.poll_request().poll_reply(),
                        post.session(fresh),
                        &final(registry).data_of(fresh),
                    )
                },
                Ok(Route::Session(sid)) => {
                    let s = pre.session(sid);
                    match s.poll_status() {
                        PollStatus::Accepted => {
                            &&& post == swapped(pre, sid, s.poll_request().poll_reply())
                            &&& quiet
                            &&& match s.poll_request().poll_body() {
                                Some(body) => get_answered(outcome, body),
                                None => outcome == GetOutcome::Wait(sid),
                            }
                        },
                        PollStatus::Conflict => get_refused(outcome, RequestError::BadRequest)
                            && post == swapped(pre, sid, s.poll_request()) && end_rel(
                            &*old(handler),
                            &*final(handler),
                            s.poll_request(),
                            s.is_live(),
                            &old(registry).data_of(sid),
                            &final(registry).data_of(sid),
                        ),
                        PollStatus::Closed => get_refused(outcome, RequestError::UnknownSid) && post
                            == swapped(pre, sid, s) && quiet,
                        PollStatus::NotPolling => get_refused(outcome, RequestError::BadRequest)
                            && post == swapped(pre, sid, s) && quiet,
                    }
                },
            }
        }),
{
    let route = match registry.route(Method::Get, query) {
        Ok(route) => route,
        Err(e) => {
            return GetOutcome::Reply(refuse(e));
        },
    };
    match route {
        Route::Upgrade(_) => GetOutcome::Reply(refuse(RequestError::BadRequest)),
        Route::Handshake(version, transport) => {
            match transport {
                TransportType::Websocket => {
                    return GetOutcome::Reply(refuse(RequestError::BadRequest));
                },
                TransportType::Polling => {},
            }
            if registry.contains(fresh) {
                return GetOutcome::Reply(refuse(RequestError::BadRequest));
            }
            let mut session = Session::new(
                fresh,
                version,
                TransportType::Polling,
                registry.config(),
                now,
            );
            let ghost first = session@;
            session.poll_request();
            let body = match session.poll_reply() {
                Some(body) => body,
                None => Vec::new(),
            };
            proof {
                lemma_first_batch(first.poll_request());
            }
            let mut data = handler.fresh_data();
            let ghost made = data;
            let ghost opened_as = session@;
            handler.on_connect(&mut session, &mut data);
            proof {
                assert(H::connect_rel(
                    &*old(handler),
                    &*handler,
                    opened_as,
                    session@,
                    &made,
                    &data,
                ));
            }
            checkin::<H>(registry, Entry { session, data });
            GetOutcome::Reply(ok_reply(body))
        },
        Route::Session(sid) => {
            let mut entry = match checkout::<H>(registry, sid) {
                Some(entry) => entry,
                None => {
                    return GetOutcome::Reply(refuse(RequestError::UnknownSid));
                },
            };
            let was_live = entry.session.is_live();
            let outcome = match entry.session.poll_request() {
                PollStatus::Accepted => match entry.session.poll_reply() {
                    Some(body) => GetOutcome::Reply(ok_reply(body)),
                    None => GetOutcome::Wait(sid),
                },
                PollStatus::Conflict => {
                    notify_end(handler, &entry.session, &mut entry.data, was_live);
                    GetOutcome::Reply(refuse(RequestError::BadRequest))
                },
                PollStatus::Closed => GetOutcome::Reply(refuse(RequestError::UnknownSid)),
                PollStatus::NotPolling => GetOutcome::Reply(refuse(RequestError::BadRequest)),
            };
            checkin::<H>(registry, entry);
            outcome
        },
    }
}

/// What the handler keeps is in order for every session.
pub open spec fn data_in_order<H: EngineIoHandler>(data: Seq<H::Data>) -> bool {
    forall|k: int| 0 <= k < data.len() ==> H::data_inv(&#[trigger] data[k])
}

/// Data that is in order stays in order when one value leaves.
proof fn lemma_data_removed<H: EngineIoHandler>(data: Seq<H::Data>, i: int)
    requires
        0 <= i < data.len(),
        data_in_order::<H>(data),
    ensures
        data_in_order::<H>(data.remove(i)),
        H::data_inv(&data[i]),
{
    assert forall|k: int| 0 <= k < data.remove(i).len() implies H::data_inv(
        &#[trigger] data.remove(i)[k],
    ) by {
        if k < i {
            assert(data.remove(i)[k] == data[k]);
        } else {
            assert(data.remove(i)[k] == data[k + 1]);
        }
    }
}

/// Data that is in order stays in order when a value that is in order
/// joins.
proof fn lemma_data_pushed<H: EngineIoHandler>(data: Seq<H::Data>, x: H::Data)
    requires
        data_in_order::<H>(data),
        H::data_inv(&x),
    ensures
        data_in_order::<H>(data.push(x)),
{
    assert forall|k: int| 0 <= k < data.push(x).len() implies H::data_inv(
        &#[trigger] data.push(x)[k],
    ) by {
        if k < data.len() {
            assert(data.push(x)[k] == data[k]);
        }
    }
}


/// Takes the session `sid` out of the registry to work on it.
fn checkout<H: EngineIoHandler>(registry: &mut Registry<H::Data>, sid: Sid) -> (entry: Option<
    Entry<H::Data>,
>)
    requires
        old(registry)@.wf(),
        data_in_order::<H>(old(registry).data()),
    ensures
        final(registry)@.wf(),
        final(registry).spec_config() == old(registry).spec_config(),
        data_in_order::<H>(final(registry).data()),
        final(registry)@ == old(registry)@.removed(sid),
        !final(registry)@.contains(sid),
        match entry {
            Some(e) => old(registry)@.contains(sid) && e.session@ == old(registry)@.session(sid)
                && e.session@.wf() && e.session@.id == sid && H::data_inv(&e.data) && e.data
                == old(registry).data_of(sid),
            None => !old(registry)@.contains(sid),
        },
{
    let ghost before = registry.data();
    let entry = registry.take(sid);
    proof {
        old(registry).lemma_data_len();
        lemma_position_contains(old(registry)@.ids(), sid);
        lemma_position(old(registry)@.ids(), sid, 0);
        if entry is Some {
            lemma_data_removed::<H>(before, old(registry)@.index_of(sid));
            assert(old(registry)@.ids()[old(registry)@.index_of(sid)] == sid);
        }
    }
    entry
}

/// Puts a session back into the registry.
fn checkin<H: EngineIoHandler>(registry: &mut Registry<H::Data>, entry: Entry<H::Data>)
    requires
        old(registry)@.wf(),
        data_in_order::<H>(old(registry).data()),
        entry.session@.wf(),
        H::data_inv(&entry.data),
    ensures
        final(registry)@.wf(),
        final(registry).spec_config() == old(registry).spec_config(),
        data_in_order::<H>(final(registry).data()),
        final(registry)@ == old(registry)@.inserted(entry.session@),
        !old(registry)@.contains(entry.session@.id) ==> final(registry)@.contains(
            entry.session@.id,
        ) && final(registry)@.sessions.len() == old(registry)@.sessions.len() + 1,
        !old(registry)@.contains(entry.session@.id) ==> final(registry)@.session(
            entry.session@.id,
        ) == entry.session@ && final(registry).data_of(entry.session@.id) == entry.data,
{
    let ghost before = registry.data();
    let ghost kept = entry.data;
    let ghost sid = entry.session@.id;
    registry.insert(entry);
    proof {
        lemma_data_pushed::<H>(before, kept);
        if !old(registry)@.contains(sid) {
            lemma_position_contains(registry@.ids(), sid);
            assert(registry@.ids()[old(registry)@.sessions.len() as int] == sid);
        }
    }
}

/// Completes the long-poll that waits on the session `sid`, if there is
/// data for it; see [`SessionView::poll_reply`]. Returns the body.
pub fn poll_flush<H: EngineIoHandler>(registry: &mut Registry<H::Data>, sid: Sid) -> (body:
    Option<Vec<u8>>)
    requires
        old(registry)@.wf(),
        data_in_order::<H>(old(registry).data()),
    ensures
        final(registry)@.wf(),
        final(registry).spec_config() == old(registry).spec_config(),
        data_in_order::<H>(final(registry).data()),
        ({
            let pre = old(registry)@;
            if pre.contains(sid) {
                &&& final(registry)@ == swapped(pre, sid, pre.session(sid).poll_reply())
                &&& bytes_opt(body) == pre.session(sid).poll_body()
            } else {
                final(registry)@ == pre && body is None
            }
        }),
{
    let mut entry = match checkout::<H>(registry, sid) {
        Some(entry) => entry,
        None => {
            return None;
        },
    };
    let body = entry.session.poll_reply();
    checkin::<H>(registry, entry);
    body
}

/// Releases the long-poll that waits on the session `sid` when nothing
/// is queued; see [`SessionView::poll_deadline`]. Returns the body of
/// the answer, a noop packet.
pub fn poll_expire<H: EngineIoHandler>(registry: &mut Registry<H::Data>, sid: Sid) -> (body:
    Option<Vec<u8>>)
    requires
        old(registry)@.wf(),
        data_in_order::<H>(old(registry).data()),
    ensures
        final(registry)@.wf(),
        final(registry).spec_config() == old(registry).spec_config(),
        data_in_order::<H>(final(registry).data()),
        ({
            let pre = old(registry)@;
            if pre.contains(sid) {
                &&& final(registry)@ == swapped(pre, sid, pre.session(sid).poll_deadline())
                &&& bytes_opt(body) == (if pre.session(sid).poll_idle() {
                    Some(noop_body())
                } else {
                    None
                })
            } else {
                final(registry)@ == pre && body is None
            }
        }),
{
    let mut entry = match checkout::<H>(registry, sid) {
        Some(entry) => entry,
        None => {
            return None;
        },
    };
    let idle = entry.session.poll_deadline();
    checkin::<H>(registry, entry);
    if idle {
        Some(EnginePacket::Noop.encode())
    } else {
        None
    }
}

/// Handles a POST of the polling transport: its body is a payload of
/// packets for the session.
///
/// A request that is turned away changes nothing; a POST for a session
/// that is closed is turned away as `UnknownSid`. A body that does not
/// decode closes the session with `PacketParsingError`, the handler
/// learns that it ended, and the reply is a `BadRequest`. Otherwise the
/// packets are taken through the session and the handler one by one and
/// in order, see [`crate::handler::dispatched`], and the reply is `ok`.
pub fn polling_post<H: EngineIoHandler>(
    registry: &mut Registry<H::Data>,
    handler: &mut H,
    query: &[u8],
    body: &[u8],
    now: u64,
) -> (reply: HttpReply)
    requires
        old(registry)@.wf(),
        old(handler).inv(),
        data_in_order::<H>(old(registry).data()),
    ensures
        final(registry)@.wf(),
        final(handler).inv(),
        data_in_order::<H>(final(registry).data()),
        final(registry).spec_config() == old(registry).spec_config(),
        ({
            let pre = old(registry)@;
            let post = final(registry)@;
            let quiet = *final(handler) == *old(handler);
            match pre.route(old(registry).spec_config(), Method::Post, query@) {
                Err(e) => reply_view(reply) == error_reply(e) && post == pre && quiet,
                Ok(Route::Session(sid)) => {
                    let s = pre.session(sid);
                    if s.is_closed() {
                        reply_view(reply) == error_reply(RequestError::UnknownSid) && post
                            == swapped(pre, sid, s) && quiet
                    } else if s.transport is Websocket {
                        reply_view(reply) == error_reply(RequestError::BadRequest) && post
                            == swapped(pre, sid, s) && quiet
                    } else {
                        let d0 = old(registry).data_of(sid);
                        let d1 = final(registry).data_of(sid);
                        match decode_payload_spec(body@) {
                            Err(_) => {
                                let closed = s.close(DisconnectReason::PacketParsingError);
                                &&& reply_view(reply) == error_reply(RequestError::BadRequest)
                                &&& post == swapped(pre, sid, closed)
                                &&& end_rel(
                                    &*old(handler),
                                    &*final(handler),
                                    closed,
                                    s.is_live(),
                                    &d0,
                                    &d1,
                                )
                            },
                            Ok(packets) => {
                                &&& reply_view(reply) == (200u16, ok_body())
                                &&& post.contains(sid)
                                &&& post == swapped(pre, sid, post.session(sid))
                                &&& dispatched(
                                    &*old(handler),
                                    &*final(handler),
                                    s,
                                    post.session(sid),
                                    &d0,
                                    &d1,
                                    packets,
                                    now,
                                )
                            },
                        }
                    }
                },
                Ok(_) => reply_view(reply) == error_reply(RequestError::BadRequest) && post == pre
                    && quiet,
            }
        }),
{
    let sid = match registry.route(Method::Post, query) {
        Ok(Route::Session(sid)) => sid,
        Ok(_) => {
            return refuse(RequestError::BadRequest);
        },
        Err(e) => {
            return refuse(e);
        },
    };
    let mut entry = match checkout::<H>(registry, sid) {
        Some(entry) => entry,
        None => {
            return refuse(RequestError::UnknownSid);
        },
    };
    if entry.session.is_closed() {
        checkin::<H>(registry, entry);
        return refuse(RequestError::UnknownSid);
    }
    match entry.session.transport() {
        TransportType::Websocket => {
            checkin::<H>(registry, entry);
            return refuse(RequestError::BadRequest);
        },
        TransportType::Polling => {},
    }
    let reply = match decode_payload(body) {
        Err(_) => {
            let was_live = entry.session.is_live();
            entry.session.close(DisconnectReason::PacketParsingError);
            notify_end(handler, &entry.session, &mut entry.data, was_live);
            refuse(RequestError::BadRequest)
        },
        Ok(packets) => {
            let ghost all = packets_view(packets@);
            let ghost h0 = *handler;
            let ghost s0 = entry.session@;
            let ghost d0 = entry.data;
            let ghost mut done = Seq::<EnginePacketView>::empty();
            proof {
                assert(all.take(0) =~= done);
                lemma_dispatched_none(&h0, s0, &d0, now);
            }
            for packet in it: packets
                invariant
                    handler.inv(),
                    entry.session@.wf(),
                    entry.session@.id == sid,
                    H::data_inv(&entry.data),
                    it.seq().len() == all.len(),
                    forall|k: int| 0 <= k < all.len() ==> (#[trigger] it.seq()[k])@ == all[k],
                    done == all.take(it.index()),
                    done.len() == it.index(),
                    dispatched(&h0, &*handler, s0, entry.session@, &d0, &entry.data, done, now),
            {
                let ghost mid = *handler;
                let ghost ms = entry.session@;
                let ghost md = entry.data;
                let ghost n = it.index();
                dispatch(handler, &mut entry.session, &mut entry.data, packet, now);
                proof {
                    assert(packet@ == all[n]);
                    lemma_dispatched_step(
                        &h0,
                        &mid,
                        &*handler,
                        s0,
                        ms,
                        entry.session@,
                        &d0,
                        &md,
                        &entry.data,
                        all.take(n),
                        all[n],
                        now,
                    );
                    assert(all.take(n + 1) =~= all.take(n).push(all[n]));
                    done = done.push(all[n]);
                }
            }
            assert(done =~= all);
            let ok: Vec<u8> = vec![111u8, 107];
            assert(ok@ =~= ok_body());
            ok_reply(ok)
        },
    };
    checkin::<H>(registry, entry);
    reply
}

/// Handles a WebSocket that opens.
///
/// A request that is turned away changes nothing. A handshake for a
/// WebSocket creates the session `fresh` on that transport, takes its
/// handshake packet off the queue as the first frame to write, and then
/// tells the handler that the session opened. A WebSocket for a polling
/// session starts an upgrade if the session allows one; see
/// [`SessionView::begin_upgrade`]. Everything else is a `BadRequest`.
pub fn ws_open<H: EngineIoHandler>(
    registry: &mut Registry<H::Data>,
    handler: &mut H,
    query: &[u8],
    fresh: Sid,
    now: u64,
) -> (outcome: WsOutcome)
    requires
        old(registry)@.wf(),
        old(handler).inv(),
        data_in_order::<H>(old(registry).data()),
    ensures
        final(registry)@.wf(),
        final(handler).inv(),
        data_in_order::<H>(final(registry).data()),
        final(registry).spec_config() == old(registry).spec_config(),
        ({
            let pre = old(registry)@;
            let post = final(registry)@;
            let config = old(registry).spec_config();
            let quiet = *final(handler) == *old(handler);
            match pre.route(config, Method::Get, query@) {
                Err(e) => ws_refused(outcome, e) && post == pre && quiet,
                Ok(Route::Session(_)) => ws_refused(outcome, RequestError::BadRequest) && post
                    == pre && quiet,
                Ok(Route::Handshake(version, transport)) => if transport is Polling
                    || pre.contains(fresh) {
                    ws_refused(outcome, RequestError::BadRequest) && post == pre && quiet
                } else {
                    let new = SessionView::fresh(
                        fresh,
                        version,
                        TransportType::Websocket,
                        config,
                        now,
                    );
                    &&& outcome matches WsOutcome::Session(sid, first) && sid == fresh && first@
                        == encode_frame_spec(new.queue[0])
                    &&& post == pre.inserted(post.session(fresh))
                    &&& post.contains(fresh)
                    &&& opened::<H>(
                        &*old(handler),
                        &*final(handler),
                        new.next_frame(),
                        post.session(fresh),
                        &final(registry).data_of(fresh),
                    )
                },
                Ok(Route::Upgrade(sid)) => {
                    let s = pre.session(sid);
                    &&& quiet
                    &&& post == swapped(pre, sid, s.begin_upgrade())
                    &&& if s.can_upgrade() {
                        outcome == WsOutcome::Probe(sid)
                    } else {
                        ws_refused(outcome, RequestError::BadRequest)
                    }
                },
            }
        }),
{
    let route = match registry.route(Method::Get, query) {
        Ok(route) => route,
        Err(e) => {
            return WsOutcome::Refused(refuse(e));
        },
    };
    match route {
        Route::Session(_) => WsOutcome::Refused(refuse(RequestError::BadRequest)),
        Route::Handshake(version, transport) => {
            match transport {
                TransportType::Polling => {
                    return WsOutcome::Refused(refuse(RequestError::BadRequest));
                },
                TransportType::Websocket => {},
            }
            if registry.contains(fresh) {
                return WsOutcome::Refused(refuse(RequestError::BadRequest));
            }
            let mut session = Session::new(
                fresh,
                version,
                TransportType::Websocket,
                registry.config(),
                now,
            );
            let first = match session.next_frame() {
                Some(frame) => frame,
                None => Frame::Text(Vec::new()),
            };
            let mut data = handler.fresh_data();
            let ghost made = data;
            let ghost opened_as = session@;
            handler.on_connect(&mut session, &mut data);
            proof {
                assert(H::connect_rel(
                    &*old(handler),
                    &*handler,
                    opened_as,
                    session@,
                    &made,
                    &data,
                ));
            }
            checkin::<H>(registry, Entry { session, data });
            WsOutcome::Session(fresh, first)
        },
        Route::Upgrade(sid) => {
            let mut entry = match checkout::<H>(registry, sid) {
                Some(entry) => entry,
                None => {
                    return WsOutcome::Refused(refuse(RequestError::UnknownSid));
                },
            };
            let ok = entry.session.begin_upgrade();
            checkin::<H>(registry, entry);
            if ok {
                WsOutcome::Probe(sid)
            } else {
                WsOutcome::Refused(refuse(RequestError::BadRequest))
            }
        },
    }
}

/// The WebSocket is refused with the error `e`.
pub open spec fn ws_refused(outcome: WsOutcome, e: RequestError) -> bool {
    outcome matches WsOutcome::Refused(reply) && reply_view(reply) == error_reply(e)
}

/// The packet that a frame of a probing WebSocket is taken for: what it
/// decodes to, and a noop where it does not decode, which is no step of
/// an upgrade.
pub open spec fn probe_packet(frame: FrameView) -> EnginePacketView {
    match decode_frame_spec(frame) {
        Ok(p) => p,
        Err(_) => EnginePacketView::Noop,
    }
}

/// Handles a frame of the WebSocket that probes for the upgrade of the
/// session `sid`; see [`SessionView::probe`]. A frame for a session
/// that is not there is dropped.
pub fn ws_probe<H: EngineIoHandler>(
    registry: &mut Registry<H::Data>,
    sid: Sid,
    frame: Frame,
) -> (reply: ProbeReply)
    requires
        old(registry)@.wf(),
        data_in_order::<H>(old(registry).data()),
    ensures
        final(registry)@.wf(),
        final(registry).spec_config() == old(registry).spec_config(),
        data_in_order::<H>(final(registry).data()),
        ({
            let pre = old(registry)@;
            let p = probe_packet(frame@);
            if pre.contains(sid) {
                &&& final(registry)@ == swapped(pre, sid, pre.session(sid).probe(p))
                &&& match pre.session(sid).probe_outcome(p) {
                    ProbeOutcome::Answered => reply matches ProbeReply::Pong(pong) && pong@
                        == encode_frame_spec(EnginePacketView::Pong(true)),
                    ProbeOutcome::Upgraded(waiting) => reply == ProbeReply::Upgraded(waiting),
                    ProbeOutcome::Rejected => reply == ProbeReply::Drop,
                }
            } else {
                final(registry)@ == pre && reply == ProbeReply::Drop
            }
        }),
{
    let mut entry = match checkout::<H>(registry, sid) {
        Some(entry) => entry,
        None => {
            return ProbeReply::Drop;
        },
    };
    let packet = match EnginePacket::from_frame(frame) {
        Ok(packet) => packet,
        Err(_) => EnginePacket::Noop,
    };
    let reply = match entry.session.probe(&packet) {
        ProbeOutcome::Answered => ProbeReply::Pong(EnginePacket::Pong(true).to_frame()),
        ProbeOutcome::Upgraded(waiting) => ProbeReply::Upgraded(waiting),
        ProbeOutcome::Rejected => ProbeReply::Drop,
    };
    checkin::<H>(registry, entry);
    reply
}

/// Handles a frame of the WebSocket that is the transport of the
/// session `sid`. A frame that does not decode closes the session with
/// `PacketParsingError`; any other is taken through the session and the
/// handler, see [`crate::handler::dispatch_rel`]. Frames for a session that
/// is not there, or that is not on a WebSocket, are dropped. Returns
/// whether the frame was taken.
pub fn ws_frame<H: EngineIoHandler>(
    registry: &mut Registry<H::Data>,
    handler: &mut H,
    sid: Sid,
    frame: Frame,
    now: u64,
) -> (taken: bool)
    requires
        old(registry)@.wf(),
        old(handler).inv(),
        data_in_order::<H>(old(registry).data()),
    ensures
        final(registry)@.wf(),
        final(handler).inv(),
        data_in_order::<H>(final(registry).data()),
        final(registry).spec_config() == old(registry).spec_config(),
        ({
            let pre = old(registry)@;
            let post = final(registry)@;
            let quiet = *final(handler) == *old(handler);
            if !pre.contains(sid) {
                !taken && post == pre && quiet
            } else if pre.session(sid).transport is Polling {
                !taken && post == swapped(pre, sid, pre.session(sid)) && quiet
            } else {
                let s = pre.session(sid);
                let d0 = old(registry).data_of(sid);
                let d1 = final(registry).data_of(sid);
                &&& taken
                &&& post.contains(sid)
                &&& post == swapped(pre, sid, post.session(sid))
                &&& match decode_frame_spec(frame@) {
                    Ok(p) => dispatch_rel(
                        &*old(handler),
                        &*final(handler),
                        s,
                        post.session(sid),
                        &d0,
                        &d1,
                        p,
                        now,
                    ),
                    Err(_) => post.session(sid) == s.close(DisconnectReason::PacketParsingError)
                        && end_rel(
                        &*old(handler),
                        &*final(handler),
                        post.session(sid),
                        s.is_live(),
                        &d0,
                        &d1,
                    ),
                }
            }
        }),
{
    let mut entry = match checkout::<H>(registry, sid) {
        Some(entry) => entry,
        None => {
            return false;
        },
    };
    match entry.session.transport() {
        TransportType::Polling => {
            checkin::<H>(registry, entry);
            return false;
        },
        TransportType::Websocket => {},
    }
    match EnginePacket::from_frame(frame) {
        Ok(packet) => {
            dispatch(handler, &mut entry.session, &mut entry.data, packet, now);
        },
        Err(_) => {
            let was_live = entry.session.is_live();
            entry.session.close(DisconnectReason::PacketParsingError);
            notify_end(handler, &entry.session, &mut entry.data, was_live);
        },
    }
    checkin::<H>(registry, entry);
    true
}

/// Takes the next frame for the WebSocket of the session `sid` off its
/// queue; see [`SessionView::next_frame`].
pub fn ws_next<H: EngineIoHandler>(registry: &mut Registry<H::Data>, sid: Sid) -> (frame: Option<
    Frame,
>)
    requires
        old(registry)@.wf(),
        data_in_order::<H>(old(registry).data()),
    ensures
        final(registry)@.wf(),
        final(registry).spec_config() == old(registry).spec_config(),
        data_in_order::<H>(final(registry).data()),
        ({
            let pre = old(registry)@;
            if pre.contains(sid) {
                &&& final(registry)@ == swapped(pre, sid, pre.session(sid).next_frame())
                &&& match frame {
                    Some(f) => pre.session(sid).frame() == Some(f@),
                    None => pre.session(sid).frame() is None,
                }
            } else {
                final(registry)@ == pre && frame is None
            }
        }),
{
    let mut entry = match checkout::<H>(registry, sid) {
        Some(entry) => entry,
        None => {
            return None;
        },
    };
    let frame = entry.session.next_frame();
    checkin::<H>(registry, entry);
    frame
}

/// The transport of the session `sid` is gone: the session is closed
/// for `reason` and ends at once, and the handler learns of it if the
/// session was live. Returns whether there was such a session.
pub fn transport_closed<H: EngineIoHandler>(
    registry: &mut Registry<H::Data>,
    handler: &mut H,
    sid: Sid,
    reason: DisconnectReason,
) -> (found: bool)
    requires
        old(registry)@.wf(),
        old(handler).inv(),
        data_in_order::<H>(old(registry).data()),
    ensures
        final(registry)@.wf(),
        final(handler).inv(),
        data_in_order::<H>(final(registry).data()),
        final(registry).spec_config() == old(registry).spec_config(),
        found == old(registry)@.contains(sid),
        ({
            let pre = old(registry)@;
            if pre.contains(sid) {
                &&& final(registry)@ == swapped(
                    pre,
                    sid,
                    pre.session(sid).close(reason).shutdown(),
                )
                &&& end_rel(
                    &*old(handler),
                    &*final(handler),
                    pre.session(sid).close(reason).shutdown(),
                    pre.session(sid).is_live(),
                    &old(registry).data_of(sid),
                    &final(registry).data_of(sid),
                )
            } else {
                final(registry)@ == pre && *final(handler) == *old(handler)
            }
        }),
{
    let mut entry = match checkout::<H>(registry, sid) {
        Some(entry) => entry,
        None => {
            return false;
        },
    };
    let was_live = entry.session.is_live();
    entry.session.close(reason);
    entry.session.shutdown();
    notify_end(handler, &entry.session, &mut entry.data, was_live);
    checkin::<H>(registry, entry);
    true
}

/// Tells the session `sid` the time; see [`SessionView::tick`]. If its
/// heartbeat ran out, the handler learns that the session ended.
/// Returns whether it ended.
pub fn heartbeat<H: EngineIoHandler>(
    registry: &mut Registry<H::Data>,
    handler: &mut H,
    sid: Sid,
    now: u64,
) -> (ended: bool)
    requires
        old(registry)@.wf(),
        old(handler).inv(),
        data_in_order::<H>(old(registry).data()),
    ensures
        final(registry)@.wf(),
        final(handler).inv(),
        data_in_order::<H>(final(registry).data()),
        final(registry).spec_config() == old(registry).spec_config(),
        ({
            let pre = old(registry)@;
            if pre.contains(sid) {
                &&& final(registry)@ == swapped(pre, sid, pre.session(sid).tick(now))
                &&& ended == (pre.session(sid).is_live() && !pre.session(sid).tick(now).is_live())
                &&& end_rel(
                    &*old(handler),
                    &*final(handler),
                    pre.session(sid).tick(now),
                    pre.session(sid).is_live(),
                    &old(registry).data_of(sid),
                    &final(registry).data_of(sid),
                )
            } else {
                final(registry)@ == pre && !ended && *final(handler) == *old(handler)
            }
        }),
{
    let mut entry = match checkout::<H>(registry, sid) {
        Some(entry) => entry,
        None => {
            return false;
        },
    };
    let ended = tick(handler, &mut entry.session, &mut entry.data, now);
    checkin::<H>(registry, entry);
    ended
}

} // verus!
