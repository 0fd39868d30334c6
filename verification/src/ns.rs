//! A namespace: the sockets that sessions hold in it, their pending
//! acknowledgements, and the dispatch of packets to them.
//!
//! User handlers run outside the library. What a namespace has for them
//! it appends to a list of [`Notice`]s; only the connect callback, whose
//! verdict decides whether a socket comes to exist, is called in place.

use crate::adapter::is_target;
use crate::adapter::memberships;
use crate::adapter::memberships_of;
use crate::adapter::rooms_view;
use crate::adapter::Adapter;
use crate::adapter::BroadcastOptions;
use crate::adapter::BroadcastOptionsView;
use crate::adapter::Members;
use crate::errors::DisconnectReason;
use crate::errors::Error;
use crate::packet::frames_view;
use crate::packet::Packet;
use crate::packet::PacketData;
use crate::packet::PacketDataView;
use crate::packet::PacketView;
use crate::search::lemma_position;
use crate::search::lemma_remove_absent;
use crate::search::lemma_position_contains;
use crate::search::lemma_push_contains;
use crate::search::lemma_push_no_duplicates;
use crate::search::position;
use crate::sid::Sid;
use crate::text::copy_range;
use vstd::prelude::*;

verus! {

/// Why a socket left its namespace.
#[derive(Clone, Copy, Debug, PartialEq, Eq, Structural)]
pub enum SocketCloseReason {
    /// The session below ended, for the given reason.
    Engine(DisconnectReason),
    /// The peer sent a disconnect packet.
    ClientNamespaceDisconnect,
    /// The server closed the socket or deleted the namespace.
    ServerNamespaceDisconnect,
}

/// Why an acknowledgement will never come.
#[derive(Clone, Copy, Debug, PartialEq, Eq, Structural)]
pub enum AckError {
    /// The socket closed first.
    SocketClosed,
    /// The peer took too long.
    Timeout,
}

/// Something for the world outside: an event for a user handler, or work
/// for a transport or a timer.
#[derive(Clone, Debug, PartialEq, Eq)]
pub enum Notice {
    /// An event for the socket `sid` of namespace `ns`: its JSON argument
    /// array, its attachments in the order of their placeholders, and the
    /// ack id under which the peer awaits an answer.
    Event { ns: Vec<u8>, sid: Sid, data: Vec<u8>, bin: Vec<Vec<u8>>, ack: Option<u64> },
    /// The peer's answer to the event that went out under ack id `id`.
    Ack { ns: Vec<u8>, sid: Sid, id: u64, data: Vec<u8>, bin: Vec<Vec<u8>> },
    /// No answer will come for ack id `id`.
    AckFailed { ns: Vec<u8>, sid: Sid, id: u64, error: AckError },
    /// The socket `sid` of namespace `ns` is gone.
    Disconnected { ns: Vec<u8>, sid: Sid, reason: SocketCloseReason },
    /// `packet` is to be sent to the session `sid`.
    Send { sid: Sid, packet: Packet },
    /// The session `sid` has `after` milliseconds to connect to a
    /// namespace.
    ConnectTimer { sid: Sid, after: u64 },
}

/// The contents of a [`Notice`].
pub enum NoticeView {
    Event { ns: Seq<u8>, sid: Sid, data: Seq<u8>, bin: Seq<Seq<u8>>, ack: Option<u64> },
    Ack { ns: Seq<u8>, sid: Sid, id: u64, data: Seq<u8>, bin: Seq<Seq<u8>> },
    AckFailed { ns: Seq<u8>, sid: Sid, id: u64, error: AckError },
    Disconnected { ns: Seq<u8>, sid: Sid, reason: SocketCloseReason },
    Send { sid: Sid, packet: PacketView },
    ConnectTimer { sid: Sid, after: u64 },
}

impl View for Notice {
    type V = NoticeView;

    open spec fn view(&self) -> NoticeView {
        match self {
            Notice::Event { ns, sid, data, bin, ack } => NoticeView::Event {
                ns: ns@,
                sid: *sid,
                data: data@,
                bin: frames_view(bin@),
                ack: *ack,
            },
            Notice::Ack { ns, sid, id, data, bin } => NoticeView::Ack {
                ns: ns@,
                sid: *sid,
                id: *id,
                data: data@,
                bin: frames_view(bin@),
            },
            Notice::AckFailed { ns, sid, id, error } => NoticeView::AckFailed {
                ns: ns@,
                sid: *sid,
                id: *id,
                error: *error,
            },
            Notice::Disconnected { ns, sid, reason } => NoticeView::Disconnected {
                ns: ns@,
                sid: *sid,
                reason: *reason,
            },
            Notice::Send { sid, packet } => NoticeView::Send { sid: *sid, packet: packet@ },
            Notice::ConnectTimer { sid, after } => NoticeView::ConnectTimer {
                sid: *sid,
                after: *after,
            },
        }
    }
}

/// The contents of a list of notices.
pub open spec fn notices_view(notices: Seq<Notice>) -> Seq<NoticeView> {
    Seq::new(notices.len(), |i: int| notices[i]@)
}

/// The state of one socket: whose it is, the next ack id it will hand
/// out, and the ack ids that still await an answer, oldest first.
pub struct NsSocketView {
    pub sid: Sid,
    pub next_ack: u64,
    pub pending: Seq<u64>,
}

/// The state of a namespace: its path, its sockets in the order in which
/// they connected, and who is in which room.
pub struct NamespaceView {
    pub path: Seq<u8>,
    pub sockets: Seq<NsSocketView>,
    pub rooms: Members,
}

/// Those of `sids` that a broadcast with `opts` is meant for, in order.
pub open spec fn targets_among(
    sids: Seq<Sid>,
    opts: BroadcastOptionsView,
    members: Members,
) -> Seq<Sid>
    decreases sids.len(),
{
    if sids.len() == 0 {
        Seq::empty()
    } else {
        let front = targets_among(sids.drop_last(), opts, members);
        if opts.targets(members, sids.last()) {
            front.push(sids.last())
        } else {
            front
        }
    }
}

impl NsSocketView {
    /// The socket of a session that just connected.
    pub open spec fn fresh(sid: Sid) -> NsSocketView {
        NsSocketView { sid, next_ack: 0, pending: Seq::empty() }
    }

    /// The ack id after `self.next_ack`; ids wrap around.
    pub open spec fn following_ack(self) -> u64 {
        if self.next_ack == u64::MAX {
            0
        } else {
            (self.next_ack + 1) as u64
        }
    }

    /// The socket after it handed out an ack id.
    pub open spec fn awaiting(self) -> NsSocketView {
        NsSocketView {
            next_ack: self.following_ack(),
            pending: self.pending.push(self.next_ack),
            ..self
        }
    }

    /// The socket after the wait for `id` ended.
    pub open spec fn settled(self, id: u64) -> NsSocketView {
        NsSocketView { pending: self.pending.remove(position(self.pending, id, 0)), ..self }
    }
}

/// One `AckFailed` for every pending ack of a socket, oldest first.
pub open spec fn rejections(path: Seq<u8>, socket: NsSocketView) -> Seq<NoticeView> {
    Seq::new(
        socket.pending.len(),
        |i: int|
            NoticeView::AckFailed {
                ns: path,
                sid: socket.sid,
                id: socket.pending[i],
                error: AckError::SocketClosed,
            },
    )
}

/// What the departure of a socket produces: its pending acks are
/// rejected, the disconnect handler is called, and, where the server
/// started it, a disconnect packet goes to the peer.
pub open spec fn departure(
    path: Seq<u8>,
    socket: NsSocketView,
    reason: SocketCloseReason,
) -> Seq<NoticeView> {
    let gone = rejections(path, socket).push(
        NoticeView::Disconnected { ns: path, sid: socket.sid, reason },
    );
    if reason is ServerNamespaceDisconnect {
        gone.push(
            NoticeView::Send {
                sid: socket.sid,
                packet: PacketView { inner: PacketDataView::Disconnect, ns: path },
            },
        )
    } else {
        gone
    }
}

/// What closing the sockets `sockets[from..]` produces, socket by socket.
pub open spec fn departures(
    path: Seq<u8>,
    sockets: Seq<NsSocketView>,
    from: int,
    reason: SocketCloseReason,
) -> Seq<NoticeView>
    decreases sockets.len() - from,
{
    if 0 <= from < sockets.len() {
        departure(path, sockets[from], reason) + departures(path, sockets, from + 1, reason)
    } else {
        Seq::empty()
    }
}

impl NamespaceView {
    /// A namespace without sockets.
    pub open spec fn empty(path: Seq<u8>) -> NamespaceView {
        NamespaceView { path, sockets: Seq::empty(), rooms: Set::empty() }
    }

    /// The owners of the sockets, in order.
    pub open spec fn sids(self) -> Seq<Sid> {
        Seq::new(self.sockets.len(), |i: int| self.sockets[i].sid)
    }

    /// No session holds two sockets here, and only connected sockets are
    /// in rooms.
    pub open spec fn wf(self) -> bool {
        &&& self.sids().no_duplicates()
        &&& forall|p: (Seq<u8>, Sid)| #[trigger] self.rooms.contains(p) ==> self.has_socket(p.1)
    }

    /// Where the socket of `sid` stands; the number of sockets when it
    /// has none.
    pub open spec fn index_of(self, sid: Sid) -> int {
        position(self.sids(), sid, 0)
    }

    /// Whether the session `sid` holds a socket here.
    pub open spec fn has_socket(self, sid: Sid) -> bool {
        self.index_of(sid) < self.sockets.len()
    }

    /// The socket of `sid`.
    pub open spec fn socket(self, sid: Sid) -> NsSocketView {
        self.sockets[self.index_of(sid)]
    }

    /// The namespace after the connect callback spoke: a socket for `sid`
    /// exists if it accepted.
    pub open spec fn admitted(self, sid: Sid, accepted: bool) -> NamespaceView {
        if accepted && !self.has_socket(sid) {
            NamespaceView { sockets: self.sockets.push(NsSocketView::fresh(sid)), ..self }
        } else {
            self
        }
    }

    /// The namespace without the socket of `sid`: it is gone from the
    /// list and from every room.
    pub open spec fn without(self, sid: Sid) -> NamespaceView {
        if self.has_socket(sid) {
            NamespaceView {
                sockets: self.sockets.remove(self.index_of(sid)),
                rooms: self.rooms.difference(memberships_of(sid)),
                ..self
            }
        } else {
            self
        }
    }

    /// The namespace after the socket of `sid` joined `rooms`.
    pub open spec fn joined(self, sid: Sid, rooms: Seq<Seq<u8>>) -> NamespaceView {
        if self.has_socket(sid) {
            NamespaceView { rooms: self.rooms.union(memberships(rooms, sid)), ..self }
        } else {
            self
        }
    }

    /// The namespace after the socket of `sid` left `rooms`.
    pub open spec fn left(self, sid: Sid, rooms: Seq<Seq<u8>>) -> NamespaceView {
        NamespaceView { rooms: self.rooms.difference(memberships(rooms, sid)), ..self }
    }

    /// The sockets that a broadcast with `opts` is meant for, in the
    /// order in which they connected.
    pub open spec fn targets(self, opts: BroadcastOptionsView) -> Seq<Sid> {
        targets_among(self.sids(), opts, self.rooms)
    }

    /// What a broadcast of `packet` produces: the packet goes to every
    /// target.
    pub open spec fn broadcast_notices(
        self,
        packet: PacketDataView,
        opts: BroadcastOptionsView,
    ) -> Seq<NoticeView> {
        let targets = self.targets(opts);
        Seq::new(
            targets.len(),
            |i: int|
                NoticeView::Send {
                    sid: targets[i],
                    packet: PacketView { inner: packet, ns: self.path },
                },
        )
    }

    /// The namespace after the sockets `targets[from..]` each handed out
    /// an ack id.
    pub open spec fn awaiting_all(self, targets: Seq<Sid>, from: int) -> NamespaceView
        decreases targets.len() - from,
    {
        if 0 <= from < targets.len() {
            let sid = targets[from];
            if self.has_socket(sid) {
                self.with_socket(sid, self.socket(sid).awaiting()).awaiting_all(targets, from + 1)
            } else {
                self.awaiting_all(targets, from + 1)
            }
        } else {
            self
        }
    }

    /// What it produces that the event `data` goes to the sockets
    /// `targets[from..]`, to each under an ack id of its own.
    pub open spec fn ack_notices(self, targets: Seq<Sid>, from: int, data: Seq<u8>) -> Seq<
        NoticeView,
    >
        decreases targets.len() - from,
    {
        if 0 <= from < targets.len() {
            let sid = targets[from];
            if self.has_socket(sid) {
                seq![
                    NoticeView::Send {
                        sid,
                        packet: PacketView {
                            inner: PacketDataView::Event(data, Some(self.socket(sid).next_ack)),
                            ns: self.path,
                        },
                    },
                ] + self.with_socket(sid, self.socket(sid).awaiting()).ack_notices(
                    targets,
                    from + 1,
                    data,
                )
            } else {
                self.ack_notices(targets, from + 1, data)
            }
        } else {
            Seq::empty()
        }
    }

    /// The namespace without the sockets `targets[from..]`.
    pub open spec fn without_all(self, targets: Seq<Sid>, from: int) -> NamespaceView
        decreases targets.len() - from,
    {
        if 0 <= from < targets.len() {
            self.without(targets[from]).without_all(targets, from + 1)
        } else {
            self
        }
    }

    /// What it produces that the server closes the sockets
    /// `targets[from..]`.
    pub open spec fn drop_notices(self, targets: Seq<Sid>, from: int) -> Seq<NoticeView>
        decreases targets.len() - from,
    {
        if 0 <= from < targets.len() {
            self.leave_notices(targets[from], SocketCloseReason::ServerNamespaceDisconnect)
                + self.without(targets[from]).drop_notices(targets, from + 1)
        } else {
            Seq::empty()
        }
    }

    /// The namespace with another state for the socket of `sid`.
    pub open spec fn with_socket(self, sid: Sid, socket: NsSocketView) -> NamespaceView {
        NamespaceView { sockets: self.sockets.update(self.index_of(sid), socket), ..self }
    }

    /// What the departure of the socket of `sid` produces.
    pub open spec fn leave_notices(self, sid: Sid, reason: SocketCloseReason) -> Seq<NoticeView> {
        if self.has_socket(sid) {
            departure(self.path, self.socket(sid), reason)
        } else {
            Seq::empty()
        }
    }

    /// How a packet for the socket of `sid` is received: `SocketGone`
    /// where there is no such socket, `InvalidPacketType` for the connect
    /// packets, which are no business of a connected socket, and
    /// `UnknownAckId` for an answer that nobody awaits.
    pub open spec fn recv_result(self, sid: Sid, data: PacketDataView) -> Result<(), Error> {
        if !self.has_socket(sid) {
            Err(Error::SocketGone(sid))
        } else {
            match data {
                PacketDataView::Connect(_) => Err(Error::InvalidPacketType),
                PacketDataView::ConnectError(_) => Err(Error::InvalidPacketType),
                PacketDataView::EventAck(_, id) => if self.socket(sid).pending.contains(id) {
                    Ok(())
                } else {
                    Err(Error::UnknownAckId)
                },
                PacketDataView::BinaryAck(_, id) => if self.socket(sid).pending.contains(id) {
                    Ok(())
                } else {
                    Err(Error::UnknownAckId)
                },
                _ => Ok(()),
            }
        }
    }

    /// The namespace after a packet for the socket of `sid`: a disconnect
    /// removes the socket, an awaited answer ends the wait, everything
    /// else leaves the namespace as it is.
    pub open spec fn recv(self, sid: Sid, data: PacketDataView) -> NamespaceView {
        if self.recv_result(sid, data) is Err {
            self
        } else {
            match data {
                PacketDataView::Disconnect => self.without(sid),
                PacketDataView::EventAck(_, id) => self.with_socket(
                    sid,
                    self.socket(sid).settled(id),
                ),
                PacketDataView::BinaryAck(_, id) => self.with_socket(
                    sid,
                    self.socket(sid).settled(id),
                ),
                _ => self,
            }
        }
    }

    /// What a packet for the socket of `sid` produces for the handlers.
    pub open spec fn recv_notices(self, sid: Sid, data: PacketDataView) -> Seq<NoticeView> {
        if self.recv_result(sid, data) is Err {
            Seq::empty()
        } else {
            match data {
                PacketDataView::Disconnect => self.leave_notices(
                    sid,
                    SocketCloseReason::ClientNamespaceDisconnect,
                ),
                PacketDataView::Event(data, ack) => seq![
                    NoticeView::Event { ns: self.path, sid, data, bin: Seq::empty(), ack },
                ],
                PacketDataView::BinaryEvent(bin, ack) => seq![
                    NoticeView::Event { ns: self.path, sid, data: bin.data, bin: bin.bin, ack },
                ],
                PacketDataView::EventAck(data, id) => seq![
                    NoticeView::Ack { ns: self.path, sid, id, data, bin: Seq::empty() },
                ],
                PacketDataView::BinaryAck(bin, id) => seq![
                    NoticeView::Ack { ns: self.path, sid, id, data: bin.data, bin: bin.bin },
                ],
                _ => Seq::empty(),
            }
        }
    }

    /// The namespace after every socket was closed.
    pub open spec fn closed(self) -> NamespaceView {
        NamespaceView { sockets: Seq::empty(), rooms: Set::empty(), ..self }
    }

    /// What closing every socket produces.
    pub open spec fn close_notices(self) -> Seq<NoticeView> {
        departures(self.path, self.sockets, 0, SocketCloseReason::ServerNamespaceDisconnect)
    }
}

/// A socket of a namespace.
struct NsSocket {
    sid: Sid,
    next_ack: u64,
    pending: Vec<u64>,
}

impl View for NsSocket {
    type V = NsSocketView;

    closed spec fn view(&self) -> NsSocketView {
        NsSocketView { sid: self.sid, next_ack: self.next_ack, pending: self.pending@ }
    }
}

spec fn sockets_view(sockets: Seq<NsSocket>) -> Seq<NsSocketView> {
    Seq::new(sockets.len(), |i: int| sockets[i]@)
}

/// A namespace with its connect callback.
///
/// The callback gets the id of the session that asks and its auth
/// payload, and answers `Ok` or the payload of a connect error.
pub struct Namespace<A, C> {
    path: Vec<u8>,
    callback: C,
    adapter: A,
    sockets: Vec<NsSocket>,
}

impl<A: Adapter, C> View for Namespace<A, C> {
    type V = NamespaceView;

    closed spec fn view(&self) -> NamespaceView {
        NamespaceView {
            path: self.path@,
            sockets: sockets_view(self.sockets@),
            rooms: self.adapter.members(),
        }
    }
}

/// Nothing is dispatched to a socket that was never acknowledged. A
/// packet for a session that holds no socket in the namespace produces
/// no notice and changes nothing, and a session gets a socket only when
/// its connect was accepted.
pub proof fn law_no_dispatch_without_socket(ns: NamespaceView, sid: Sid, data: PacketDataView)
    requires
        ns.wf(),
        !ns.has_socket(sid),
    ensures
        ns.recv(sid, data) == ns,
        ns.recv_notices(sid, data).len() == 0,
        ns.recv_result(sid, data) == Err::<(), Error>(Error::SocketGone(sid)),
        !ns.admitted(sid, false).has_socket(sid),
        ns.admitted(sid, true).has_socket(sid),
{
    let t = ns.admitted(sid, true);
    lemma_position(t.sids(), sid, 0);
    assert(t.sids()[ns.sockets.len() as int] == sid);
}

/// A state whose sockets are distinct and whose rooms hold only owners
/// of sockets is in order.
pub proof fn lemma_rooms_in_order(ns: NamespaceView)
    requires
        ns.sids().no_duplicates(),
        forall|p: (Seq<u8>, Sid)| #[trigger] ns.rooms.contains(p) ==> ns.sids().contains(p.1),
    ensures
        ns.wf(),
{
    assert forall|p: (Seq<u8>, Sid)| #[trigger] ns.rooms.contains(p) implies ns.has_socket(
        p.1,
    ) by {
        lemma_has_socket(ns, p.1);
    }
}

/// In a state that is in order, whoever is in a room owns a socket.
pub proof fn lemma_rooms_owned(ns: NamespaceView)
    requires
        ns.wf(),
    ensures
        forall|p: (Seq<u8>, Sid)| #[trigger] ns.rooms.contains(p) ==> ns.sids().contains(p.1),
{
    assert forall|p: (Seq<u8>, Sid)| #[trigger] ns.rooms.contains(p) implies ns.sids().contains(
        p.1,
    ) by {
        lemma_has_socket(ns, p.1);
    }
}

/// A socket is connected exactly when its owner is among the owners.
pub proof fn lemma_has_socket(ns: NamespaceView, sid: Sid)
    ensures
        ns.has_socket(sid) <==> ns.sids().contains(sid),
        ns.has_socket(sid) ==> ns.socket(sid).sid == sid,
{
    lemma_position_contains(ns.sids(), sid);
    lemma_position(ns.sids(), sid, 0);
    if ns.has_socket(sid) {
        assert(ns.sids()[ns.index_of(sid)] == sid);
    }
}

/// Appends the notices of a socket's departure.
fn push_departure(
    path: &Vec<u8>,
    socket: &NsSocket,
    reason: SocketCloseReason,
    notices: &mut Vec<Notice>,
)
    ensures
        notices_view(final(notices)@) == notices_view(old(notices)@) + departure(
            path@,
            socket@,
            reason,
        ),
{
    let ghost before = notices_view(notices@);
    let ghost failed = rejections(path@, socket@);
    let mut i: usize = 0;
    while i < socket.pending.len()
        invariant
            i <= socket.pending.len(),
            failed == rejections(path@, socket@),
            notices_view(notices@) == before + failed.take(i as int),
        decreases socket.pending.len() - i,
    {
        let notice = Notice::AckFailed {
            ns: copy_range(path.as_slice(), 0, path.len()),
            sid: socket.sid,
            id: socket.pending[i],
            error: AckError::SocketClosed,
        };
        proof {
            assert(path@.subrange(0, path@.len() as int) == path@);
            assert(notice@ == failed[i as int]);
        }
        let ghost sofar = notices_view(notices@);
        notices.push(notice);
        assert(notices_view(notices@) =~= sofar.push(failed[i as int]));
        assert(failed.take(i + 1) =~= failed.take(i as int).push(failed[i as int]));
        i += 1;
    }
    assert(failed.take(failed.len() as int) == failed);
    assert(notices_view(notices@) == before + failed);
    let gone = Notice::Disconnected {
        ns: copy_range(path.as_slice(), 0, path.len()),
        sid: socket.sid,
        reason,
    };
    assert(path@.subrange(0, path@.len() as int) == path@);
    let ghost sofar = notices_view(notices@);
    notices.push(gone);
    assert(notices_view(notices@) =~= sofar.push(gone@));
    assert(sofar.push(gone@) =~= before + failed.push(gone@));
    match reason {
        SocketCloseReason::ServerNamespaceDisconnect => {
            let bye = Notice::Send {
                sid: socket.sid,
                packet: Packet::disconnect(copy_range(path.as_slice(), 0, path.len())),
            };
            let ghost sofar = notices_view(notices@);
            notices.push(bye);
            assert(notices_view(notices@) =~= sofar.push(bye@));
            assert(sofar.push(bye@) =~= before + failed.push(gone@).push(bye@));
        },
        _ => {},
    }
    assert(notices_view(notices@) =~= before + departure(path@, socket@, reason));
}

impl<A: Adapter, C: Fn(Sid, Vec<u8>) -> Result<(), Vec<u8>>> Namespace<A, C> {
    /// The invariant of a namespace: no session holds two sockets, and
    /// the callback may be called with any session and any payload.
    pub closed spec fn wf(&self) -> bool {
        &&& self@.wf()
        &&& self.adapter.inv()
        &&& forall|sid: Sid, auth: Vec<u8>| call_requires(self.callback, (sid, auth))
    }

    /// The connect callback.
    pub closed spec fn callback(&self) -> C {
        self.callback
    }

    /// A namespace that is in order has a state that is in order.
    pub proof fn lemma_wf(&self)
        requires
            self.wf(),
        ensures
            self@.wf(),
    {
    }

    /// A namespace without sockets.
    pub fn new(path: Vec<u8>, callback: C) -> (ns: Self)
        requires
            forall|sid: Sid, auth: Vec<u8>| call_requires(callback, (sid, auth)),
        ensures
            ns.wf(),
            ns@ == NamespaceView::empty(path@),
            ns.callback() == callback,
    {
        let ns = Namespace { path, callback, adapter: A::new(), sockets: Vec::new() };
        assert(ns@.sockets =~= Seq::empty());
        ns
    }

    /// The path of the namespace.
    pub fn path(&self) -> (path: &[u8])
        ensures
            path@ == self@.path,
    {
        self.path.as_slice()
    }

    /// Number of connected sockets.
    pub fn len(&self) -> (n: usize)
        ensures
            n == self@.sockets.len(),
    {
        self.sockets.len()
    }

    fn index_of(&self, sid: Sid) -> (i: usize)
        ensures
            i == self@.index_of(sid),
            i <= self@.sockets.len(),
            i < self@.sockets.len() ==> self@.sockets[i as int].sid == sid,
    {
        let ghost sids = self@.sids();
        let mut i: usize = 0;
        while i < self.sockets.len() && self.sockets[i].sid != sid
            invariant
                i <= self.sockets.len(),
                sids == self@.sids(),
                position(sids, sid, 0) == position(sids, sid, i as int),
            decreases self.sockets.len() - i,
        {
            i += 1;
        }
        proof {
            lemma_position(sids, sid, 0);
        }
        i
    }

    /// Whether the session `sid` holds a socket here.
    pub fn has_socket(&self, sid: Sid) -> (has: bool)
        ensures
            has == self@.has_socket(sid),
    {
        self.index_of(sid) < self.sockets.len()
    }

    /// Records the verdict of the connect callback: a socket for `sid`
    /// comes to exist if it accepted and there is none yet.
    pub fn admit_socket(&mut self, sid: Sid, accepted: bool)
        requires
            old(self).wf(),
        ensures
            final(self).wf(),
            final(self).callback() == old(self).callback(),
            final(self)@ == old(self)@.admitted(sid, accepted),
    {
        if accepted && !self.has_socket(sid) {
            let ghost sids = self@.sids();
            proof {
                lemma_position_contains(sids, sid);
            }
            self.sockets.push(NsSocket { sid, next_ack: 0, pending: Vec::new() });
            proof {
                assert(self@.sockets =~= old(self)@.sockets.push(NsSocketView::fresh(sid)));
                assert(self@.sids() =~= sids.push(sid));
                lemma_push_no_duplicates(sids, sid);
                lemma_push_contains(sids, sid);
                lemma_rooms_owned(old(self)@);
                assert forall|p: (Seq<u8>, Sid)| #[trigger]
                    self@.rooms.contains(p) implies self@.sids().contains(p.1) by {
                    assert(old(self)@.rooms.contains(p));
                    assert(sids.contains(p.1));
                    assert(sids.push(sid).contains(p.1));
                }
                lemma_rooms_in_order(self@);
            }
        }
    }

    /// Asks the connect callback whether the session `sid` may connect
    /// with the payload `auth`, and records the verdict. A session that
    /// is connected already is accepted without asking.
    pub fn connect(&mut self, sid: Sid, auth: Vec<u8>) -> (verdict: Result<(), Vec<u8>>)
        requires
            old(self).wf(),
        ensures
            final(self).wf(),
            final(self).callback() == old(self).callback(),
            final(self)@ == old(self)@.admitted(sid, verdict is Ok),
            old(self)@.has_socket(sid) ==> verdict is Ok,
            !old(self)@.has_socket(sid) ==> call_ensures(old(self).callback(), (sid, auth), verdict),
    {
        if self.has_socket(sid) {
            return Ok(());
        }
        let verdict = (self.callback)(sid, auth);
        self.admit_socket(sid, verdict.is_ok());
        verdict
    }

    /// Removes the socket of `sid`, if there is one, and appends what its
    /// departure produces. Returns whether there was one.
    pub fn remove_socket(
        &mut self,
        sid: Sid,
        reason: SocketCloseReason,
        notices: &mut Vec<Notice>,
    ) -> (had: bool)
        requires
            old(self).wf(),
        ensures
            final(self).wf(),
            final(self).callback() == old(self).callback(),
            had == old(self)@.has_socket(sid),
            final(self)@ == old(self)@.without(sid),
            notices_view(final(notices)@) == notices_view(old(notices)@) + old(self)@.leave_notices(
                sid,
                reason,
            ),
    {
        let i = self.index_of(sid);
        if i >= self.sockets.len() {
            assert(notices_view(notices@) + Seq::<NoticeView>::empty() =~= notices_view(notices@));
            return false;
        }
        let ghost sids = self@.sids();
        let socket = self.sockets.remove(i);
        self.adapter.del_all(sid);
        push_departure(&self.path, &socket, reason, notices);
        proof {
            assert(self@.sockets =~= old(self)@.sockets.remove(i as int));
            assert(self@.sids() =~= sids.remove(i as int));
            lemma_remove_absent(sids, i as int);
            lemma_rooms_owned(old(self)@);
            assert forall|p: (Seq<u8>, Sid)| #[trigger]
                self@.rooms.contains(p) implies self@.sids().contains(p.1) by {
                assert(old(self)@.rooms.contains(p));
                assert(p.1 != sid);
                let k = choose|k: int| 0 <= k < sids.len() && sids[k] == p.1;
                if k < i {
                    assert(sids.remove(i as int)[k] == p.1);
                } else {
                    assert(sids.remove(i as int)[k - 1] == p.1);
                }
            }
            lemma_rooms_in_order(self@);
        }
        true
    }

    /// Hands out an ack id for an event that the server sends to the
    /// socket of `sid`, and waits for the answer from now on.
    pub fn register_ack(&mut self, sid: Sid) -> (r: Result<u64, Error>)
        requires
            old(self).wf(),
        ensures
            final(self).wf(),
            final(self).callback() == old(self).callback(),
            match r {
                Ok(id) => old(self)@.has_socket(sid) && id == old(self)@.socket(sid).next_ack
                    && final(self)@ == old(self)@.with_socket(
                    sid,
                    old(self)@.socket(sid).awaiting(),
                ),
                Err(e) => !old(self)@.has_socket(sid) && e == Error::SocketGone(sid) && final(self)@
                    == old(self)@,
            },
    {
        let i = self.index_of(sid);
        if i >= self.sockets.len() {
            return Err(Error::SocketGone(sid));
        }
        let ghost sids = self@.sids();
        let mut socket = self.sockets.remove(i);
        let id = socket.next_ack;
        socket.next_ack = if id == u64::MAX {
            0
        } else {
            id + 1
        };
        socket.pending.push(id);
        self.sockets.insert(i, socket);
        proof {
            assert(self@.sockets =~= old(self)@.sockets.update(
                i as int,
                old(self)@.socket(sid).awaiting(),
            ));
            assert(self@.sids() =~= sids);
            lemma_rooms_owned(old(self)@);
            assert forall|p: (Seq<u8>, Sid)| #[trigger]
                self@.rooms.contains(p) implies self@.sids().contains(p.1) by {
                assert(old(self)@.rooms.contains(p));
                assert(sids.contains(p.1));
            }
            lemma_rooms_in_order(self@);
        }
        Ok(id)
    }

    /// Ends the wait for the answer to ack id `id` of the socket of
    /// `sid`. Returns whether anybody waited.
    fn settle_ack(&mut self, sid: Sid, id: u64) -> (awaited: bool)
        requires
            old(self).wf(),
            old(self)@.has_socket(sid),
        ensures
            final(self).wf(),
            final(self).callback() == old(self).callback(),
            awaited == old(self)@.socket(sid).pending.contains(id),
            final(self)@ == (if awaited {
                old(self)@.with_socket(sid, old(self)@.socket(sid).settled(id))
            } else {
                old(self)@
            }),
    {
        let i = self.index_of(sid);
        let ghost sids = self@.sids();
        let ghost pending = self@.socket(sid).pending;
        let mut k: usize = 0;
        while k < self.sockets[i].pending.len() && self.sockets[i].pending[k] != id
            invariant
                i < self.sockets.len(),
                k <= self.sockets[i as int].pending.len(),
                pending == self.sockets[i as int].pending@,
                position(pending, id, 0) == position(pending, id, k as int),
            decreases self.sockets[i as int].pending.len() - k,
        {
            k += 1;
        }
        proof {
            lemma_position_contains(pending, id);
        }
        if k >= self.sockets[i].pending.len() {
            return false;
        }
        let mut socket = self.sockets.remove(i);
        socket.pending.remove(k);
        self.sockets.insert(i, socket);
        proof {
            assert(self@.sockets =~= old(self)@.sockets.update(
                i as int,
                old(self)@.socket(sid).settled(id),
            ));
            assert(self@.sids() =~= sids);
            lemma_rooms_owned(old(self)@);
            assert forall|p: (Seq<u8>, Sid)| #[trigger]
                self@.rooms.contains(p) implies self@.sids().contains(p.1) by {
                assert(old(self)@.rooms.contains(p));
                assert(sids.contains(p.1));
            }
            lemma_rooms_in_order(self@);
        }
        true
    }

    /// The wait for the answer to ack id `id` of the socket of `sid` has
    /// taken too long: it ends, and the handler learns of it.
    pub fn ack_timeout(&mut self, sid: Sid, id: u64, notices: &mut Vec<Notice>) -> (awaited: bool)
        requires
            old(self).wf(),
        ensures
            final(self).wf(),
            final(self).callback() == old(self).callback(),
            awaited == (old(self)@.has_socket(sid) && old(self)@.socket(sid).pending.contains(id)),
            final(self)@ == (if awaited {
                old(self)@.with_socket(sid, old(self)@.socket(sid).settled(id))
            } else {
                old(self)@
            }),
            notices_view(final(notices)@) == (if awaited {
                notices_view(old(notices)@).push(
                    NoticeView::AckFailed {
                        ns: old(self)@.path,
                        sid,
                        id,
                        error: AckError::Timeout,
                    },
                )
            } else {
                notices_view(old(notices)@)
            }),
    {
        if !self.has_socket(sid) {
            return false;
        }
        if !self.settle_ack(sid, id) {
            return false;
        }
        let ghost before = notices_view(notices@);
        let notice = Notice::AckFailed {
            ns: copy_range(self.path.as_slice(), 0, self.path.len()),
            sid,
            id,
            error: AckError::Timeout,
        };
        assert(self.path@.subrange(0, self.path@.len() as int) == self.path@);
        notices.push(notice);
        assert(notices_view(notices@) =~= before.push(notice@));
        true
    }

    /// Hands a packet to the socket of `sid`; see
    /// [`NamespaceView::recv`], [`NamespaceView::recv_result`] and
    /// [`NamespaceView::recv_notices`].
    pub fn recv(&mut self, sid: Sid, data: PacketData, notices: &mut Vec<Notice>) -> (r: Result<
        (),
        Error,
    >)
        requires
            old(self).wf(),
        ensures
            final(self).wf(),
            final(self).callback() == old(self).callback(),
            r == old(self)@.recv_result(sid, data@),
            final(self)@ == old(self)@.recv(sid, data@),
            notices_view(final(notices)@) == notices_view(old(notices)@) + old(self)@.recv_notices(
                sid,
                data@,
            ),
    {
        let ghost before = notices_view(notices@);
        assert(before + Seq::<NoticeView>::empty() =~= before);
        if !self.has_socket(sid) {
            return Err(Error::SocketGone(sid));
        }
        let ns = copy_range(self.path.as_slice(), 0, self.path.len());
        assert(self.path@.subrange(0, self.path@.len() as int) == self.path@);
        match data {
            PacketData::Connect(_) => Err(Error::InvalidPacketType),
            PacketData::ConnectError(_) => Err(Error::InvalidPacketType),
            PacketData::Disconnect => {
                self.remove_socket(sid, SocketCloseReason::ClientNamespaceDisconnect, notices);
                Ok(())
            },
            PacketData::Event(data, ack) => {
                let notice = Notice::Event { ns, sid, data, bin: Vec::new(), ack };
                assert(notice@->Event_bin =~= Seq::empty());
                notices.push(notice);
                assert(notices_view(notices@) =~= before + seq![notice@]);
                Ok(())
            },
            PacketData::BinaryEvent(bin, ack) => {
                let notice = Notice::Event { ns, sid, data: bin.data, bin: bin.bin, ack };
                notices.push(notice);
                assert(notices_view(notices@) =~= before + seq![notice@]);
                Ok(())
            },
            PacketData::EventAck(data, id) => {
                if !self.settle_ack(sid, id) {
                    return Err(Error::UnknownAckId);
                }
                let notice = Notice::Ack { ns, sid, id, data, bin: Vec::new() };
                assert(notice@->Ack_bin =~= Seq::empty());
                notices.push(notice);
                assert(notices_view(notices@) =~= before + seq![notice@]);
                Ok(())
            },
            PacketData::BinaryAck(bin, id) => {
                if !self.settle_ack(sid, id) {
                    return Err(Error::UnknownAckId);
                }
                let notice = Notice::Ack { ns, sid, id, data: bin.data, bin: bin.bin };
                notices.push(notice);
                assert(notices_view(notices@) =~= before + seq![notice@]);
                Ok(())
            },
        }
    }

    /// Closes every socket and appends what their departures produce:
    /// for each socket in turn its pending acks are rejected, the
    /// disconnect handler is told, and a disconnect packet goes out.
    pub fn close(&mut self, notices: &mut Vec<Notice>)
        requires
            old(self).wf(),
        ensures
            final(self).wf(),
            final(self).callback() == old(self).callback(),
            final(self)@ == old(self)@.closed(),
            notices_view(final(notices)@) == notices_view(old(notices)@) + old(self)@.close_notices(),
    {
        let ghost before = notices_view(notices@);
        let ghost sockets = self@.sockets;
        let ghost path = self@.path;
        let reason = SocketCloseReason::ServerNamespaceDisconnect;
        let mut i: usize = 0;
        assert(before + Seq::<NoticeView>::empty() =~= before);
        while i < self.sockets.len()
            invariant
                i <= self.sockets.len(),
                self.wf(),
                self == old(self),
                sockets == self@.sockets,
                path == self@.path,
                notices_view(notices@) + departures(path, sockets, i as int, reason) == before
                    + departures(path, sockets, 0, reason),
            decreases self.sockets.len() - i,
        {
            let ghost sofar = notices_view(notices@);
            push_departure(&self.path, &self.sockets[i], reason, notices);
            proof {
                assert(sofar + departures(path, sockets, i as int, reason) =~= (sofar + departure(
                    path,
                    sockets[i as int],
                    reason,
                )) + departures(path, sockets, i + 1, reason));
            }
            i += 1;
        }
        assert(notices_view(notices@) + Seq::<NoticeView>::empty() =~= notices_view(notices@));
        self.sockets = Vec::new();
        self.adapter = A::new();
        assert(self@.sockets =~= Seq::empty());
        assert(self@.sids() =~= Seq::empty());
    }

    /// The owners of the connected sockets, in the order in which they
    /// connected.
    pub fn sids(&self) -> (out: Vec<Sid>)
        ensures
            out@ == self@.sids(),
    {
        let mut out: Vec<Sid> = Vec::new();
        let mut i: usize = 0;
        while i < self.sockets.len()
            invariant
                i <= self.sockets.len(),
                out@ == self@.sids().take(i as int),
            decreases self.sockets.len() - i,
        {
            out.push(self.sockets[i].sid);
            assert(out@ =~= self@.sids().take(i + 1));
            i += 1;
        }
        assert(self@.sids().take(self.sockets.len() as int) =~= self@.sids());
        out
    }

    /// Puts the socket of `sid` in each of `rooms`. Fails with
    /// `SocketGone` when the session has no socket here.
    pub fn join(&mut self, sid: Sid, rooms: &Vec<Vec<u8>>) -> (r: Result<(), Error>)
        requires
            old(self).wf(),
        ensures
            final(self).wf(),
            final(self).callback() == old(self).callback(),
            final(self)@ == old(self)@.joined(sid, rooms_view(rooms@)),
            r == (if old(self)@.has_socket(sid) {
                Ok::<(), Error>(())
            } else {
                Err::<(), Error>(Error::SocketGone(sid))
            }),
    {
        if !self.has_socket(sid) {
            return Err(Error::SocketGone(sid));
        }
        self.adapter.add_all(sid, rooms);
        proof {
            lemma_rooms_owned(old(self)@);
            lemma_has_socket(old(self)@, sid);
            assert(self@.sids() =~= old(self)@.sids());
            assert forall|p: (Seq<u8>, Sid)| #[trigger]
                self@.rooms.contains(p) implies self@.sids().contains(p.1) by {
                if old(self)@.rooms.contains(p) {
                    assert(old(self)@.sids().contains(p.1));
                } else {
                    assert(memberships(rooms_view(rooms@), sid).contains(p));
                    assert(p.1 == sid);
                }
            }
            lemma_rooms_in_order(self@);
        }
        Ok(())
    }

    /// Takes the socket of `sid` out of each of `rooms`.
    pub fn leave(&mut self, sid: Sid, rooms: &Vec<Vec<u8>>)
        requires
            old(self).wf(),
        ensures
            final(self).wf(),
            final(self).callback() == old(self).callback(),
            final(self)@ == old(self)@.left(sid, rooms_view(rooms@)),
    {
        self.adapter.del(sid, rooms);
        proof {
            lemma_rooms_owned(old(self)@);
            assert(self@.sids() =~= old(self)@.sids());
            assert forall|p: (Seq<u8>, Sid)| #[trigger]
                self@.rooms.contains(p) implies self@.sids().contains(p.1) by {
                assert(old(self)@.rooms.contains(p));
                assert(old(self)@.sids().contains(p.1));
            }
            lemma_rooms_in_order(self@);
        }
    }

    /// Whether the socket of `sid` is in `room`.
    pub fn in_room(&self, sid: Sid, room: &[u8]) -> (yes: bool)
        requires
            self.wf(),
        ensures
            yes == self@.rooms.contains((room@, sid)),
    {
        self.adapter.is_member(room, sid)
    }

    /// The sockets that a broadcast with `opts` is meant for, in the
    /// order in which they connected.
    pub fn sockets(&self, opts: &BroadcastOptions) -> (out: Vec<Sid>)
        requires
            self.wf(),
        ensures
            out@ == self@.targets(opts@),
    {
        let ghost sids = self@.sids();
        let mut out: Vec<Sid> = Vec::new();
        let mut i: usize = 0;
        assert(sids.take(0) =~= Seq::empty());
        while i < self.sockets.len()
            invariant
                i <= self.sockets.len(),
                self.wf(),
                sids == self@.sids(),
                out@ == targets_among(sids.take(i as int), opts@, self@.rooms),
            decreases self.sockets.len() - i,
        {
            let sid = self.sockets[i].sid;
            proof {
                assert(sids.take(i + 1).drop_last() =~= sids.take(i as int));
                assert(sids.take(i + 1).last() == sid);
            }
            if is_target(&self.adapter, opts, sid) {
                out.push(sid);
            }
            i += 1;
        }
        assert(sids.take(self.sockets.len() as int) =~= sids);
        out
    }

    /// Sends `packet` to every socket that `opts` means; see
    /// [`NamespaceView::broadcast_notices`].
    pub fn broadcast(&self, packet: &PacketData, opts: &BroadcastOptions, notices: &mut Vec<Notice>)
        requires
            self.wf(),
        ensures
            notices_view(final(notices)@) == notices_view(old(notices)@) + self@.broadcast_notices(
                packet@,
                opts@,
            ),
    {
        let targets = self.sockets(opts);
        let ghost before = notices_view(notices@);
        let ghost all = self@.broadcast_notices(packet@, opts@);
        let mut i: usize = 0;
        assert(before + all.take(0) =~= before);
        while i < targets.len()
            invariant
                i <= targets.len(),
                targets@ == self@.targets(opts@),
                all == self@.broadcast_notices(packet@, opts@),
                notices_view(notices@) == before + all.take(i as int),
            decreases targets.len() - i,
        {
            let ghost sofar = notices_view(notices@);
            let notice = Notice::Send {
                sid: targets[i],
                packet: Packet {
                    inner: packet.duplicate(),
                    ns: copy_range(self.path.as_slice(), 0, self.path.len()),
                },
            };
            assert(self.path@.subrange(0, self.path@.len() as int) == self.path@);
            notices.push(notice);
            proof {
                assert(notices_view(notices@) =~= sofar.push(all[i as int]));
                assert(all.take(i + 1) =~= all.take(i as int).push(all[i as int]));
            }
            i += 1;
        }
        assert(all.take(targets.len() as int) =~= all);
    }

    /// Sends the event `data` to every socket that `opts` means, to each
    /// under an ack id of its own, and awaits the answers; see
    /// [`NamespaceView::awaiting_all`] and
    /// [`NamespaceView::ack_notices`].
    pub fn broadcast_with_ack(&mut self, data: &[u8], opts: &BroadcastOptions, notices: &mut Vec<Notice>)
        requires
            old(self).wf(),
        ensures
            final(self).wf(),
            final(self).callback() == old(self).callback(),
            final(self)@ == old(self)@.awaiting_all(old(self)@.targets(opts@), 0),
            notices_view(final(notices)@) == notices_view(old(notices)@) + old(self)@.ack_notices(
                old(self)@.targets(opts@),
                0,
                data@,
            ),
    {
        let targets = self.sockets(opts);
        let ghost start = self@;
        let ghost before = notices_view(notices@);
        let mut i: usize = 0;
        while i < targets.len()
            invariant
                i <= targets.len(),
                self.wf(),
                self.callback() == old(self).callback(),
                start == old(self)@,
                self@.path == start.path,
                targets@ == start.targets(opts@),
                self@.awaiting_all(targets@, i as int) == start.awaiting_all(targets@, 0),
                notices_view(notices@) + self@.ack_notices(targets@, i as int, data@) == before
                    + start.ack_notices(targets@, 0, data@),
            decreases targets.len() - i,
        {
            let ghost sofar = notices_view(notices@);
            let ghost here = self@;
            let sid = targets[i];
            match self.register_ack(sid) {
                Ok(id) => {
                    let notice = Notice::Send {
                        sid,
                        packet: Packet {
                            inner: PacketData::Event(
                                copy_range(data, 0, data.len()),
                                Some(id),
                            ),
                            ns: copy_range(self.path.as_slice(), 0, self.path.len()),
                        },
                    };
                    assert(self.path@.subrange(0, self.path@.len() as int) == self.path@);
                    assert(data@.subrange(0, data@.len() as int) == data@);
                    notices.push(notice);
                    proof {
                        assert(notices_view(notices@) =~= sofar.push(notice@));
                        assert(sofar + here.ack_notices(targets@, i as int, data@) =~= sofar.push(
                            notice@,
                        ) + self@.ack_notices(targets@, i + 1, data@));
                    }
                },
                Err(_) => {},
            }
            i += 1;
        }
        assert(notices_view(notices@) + Seq::<NoticeView>::empty() =~= notices_view(notices@));
    }

    /// Closes every socket that `opts` means; see
    /// [`NamespaceView::without_all`] and
    /// [`NamespaceView::drop_notices`].
    pub fn disconnect_sockets(&mut self, opts: &BroadcastOptions, notices: &mut Vec<Notice>)
        requires
            old(self).wf(),
        ensures
            final(self).wf(),
            final(self).callback() == old(self).callback(),
            final(self)@ == old(self)@.without_all(old(self)@.targets(opts@), 0),
            notices_view(final(notices)@) == notices_view(old(notices)@) + old(self)@.drop_notices(
                old(self)@.targets(opts@),
                0,
            ),
    {
        let targets = self.sockets(opts);
        let ghost start = self@;
        let ghost before = notices_view(notices@);
        let mut i: usize = 0;
        while i < targets.len()
            invariant
                i <= targets.len(),
                self.wf(),
                self.callback() == old(self).callback(),
                start == old(self)@,
                targets@ == start.targets(opts@),
                self@.without_all(targets@, i as int) == start.without_all(targets@, 0),
                notices_view(notices@) + self@.drop_notices(targets@, i as int) == before
                    + start.drop_notices(targets@, 0),
            decreases targets.len() - i,
        {
            let ghost sofar = notices_view(notices@);
            let ghost here = self@;
            self.remove_socket(targets[i], SocketCloseReason::ServerNamespaceDisconnect, notices);
            proof {
                assert(sofar + here.drop_notices(targets@, i as int) =~= (sofar
                    + here.leave_notices(
                    targets@[i as int],
                    SocketCloseReason::ServerNamespaceDisconnect,
                )) + self@.drop_notices(targets@, i + 1));
            }
            i += 1;
        }
        assert(notices_view(notices@) + Seq::<NoticeView>::empty() =~= notices_view(notices@));
    }
}

} // verus!
