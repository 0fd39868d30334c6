//! The Socket.IO client layer: it sits between the sessions' inbound
//! frames and the namespaces. It reassembles binary packets, runs the
//! connect handshake, and routes every other packet to the socket it is
//! meant for.

use crate::adapter::rooms_view;
use crate::adapter::Adapter;
use crate::adapter::BroadcastOptions;
use crate::adapter::BroadcastOptionsView;
use crate::config::EngineVersion;
use crate::config::SocketIoConfig;
use crate::engine_packet::EnginePacketView;
use crate::errors::DisconnectReason;
use crate::errors::Error;
use crate::handler::EngineIoHandler;
use crate::ns::notices_view;
use crate::ns::AckError;
use crate::ns::Namespace;
use crate::ns::NamespaceView;
use crate::ns::Notice;
use crate::ns::NoticeView;
use crate::ns::SocketCloseReason;
use crate::packet::connect_payload;
use crate::packet::encode_spec;
use crate::packet::invalid_namespace_text;
use crate::packet::is_root_ns;
use crate::packet::root_ns;
use crate::packet::Packet;
use crate::packet::PacketData;
use crate::packet::PacketDataView;
use crate::packet::PacketView;
use crate::packet::ProtocolVersion;
use crate::reassembly::feed_state;
use crate::reassembly::feed_step;
use crate::reassembly::law_wire_round_trip;
use crate::reassembly::run_state;
use crate::reassembly::wire_inputs;
use crate::reassembly::Input;
use crate::reassembly::Step;
use crate::search::lemma_position;
use crate::search::lemma_remove_absent;
use crate::search::lemma_position_contains;
use crate::search::lemma_position_push;
use crate::search::lemma_position_remove;
use crate::search::position;
use crate::session::Session;
use crate::session::SessionView;
use crate::sid::Sid;
use crate::text::bytes_eq;
use crate::text::copy_range;
use std::sync::Arc;
use vstd::prelude::*;
use vstd::string::StringSliceAdditionalSpecFns;
use vstd::utf8::encode_utf8;

verus! {

/// What the client layer keeps for each session.
#[derive(Clone, Debug, PartialEq, Eq)]
pub struct SocketData {
    /// The binary packet that waits for attachments, if any.
    pub partial_bin_packet: Option<Packet>,
    /// Whether the connect timer runs: the session has yet to connect to
    /// a namespace.
    pub connect_timer: bool,
}

/// The contents of [`SocketData`].
pub struct SocketDataView {
    pub partial: Option<PacketView>,
    pub connect_timer: bool,
}

impl View for SocketData {
    type V = SocketDataView;

    open spec fn view(&self) -> SocketDataView {
        SocketDataView {
            partial: match self.partial_bin_packet {
                Some(p) => Some(p@),
                None => None,
            },
            connect_timer: self.connect_timer,
        }
    }
}

impl SocketDataView {
    /// A packet that waits is a binary packet that lacks attachments.
    pub open spec fn wf(self) -> bool {
        self.partial matches Some(p) ==> p.expects_more()
    }
}

impl Default for SocketData {
    fn default() -> (data: SocketData)
        ensures
            data@ == (SocketDataView { partial: None, connect_timer: false }),
            data@.wf(),
    {
        SocketData { partial_bin_packet: None, connect_timer: false }
    }
}

/// What the outcome of taking a frame means as a step of the
/// reassembly: a packet goes on, nothing happens yet, or the peer broke
/// the protocol.
pub open spec fn step_of(r: Result<Option<Packet>, Error>) -> Step {
    match r {
        Ok(Some(p)) => Step::Forward(p@),
        Ok(None) => Step::Hold,
        Err(e) => Step::Violation(e),
    }
}

/// The bytes of a namespace path that is given as a string.
pub open spec fn path_bytes(path: Seq<char>) -> Seq<u8> {
    encode_utf8(path)
}

/// The packet that acknowledges the connect of a session to `path`.
pub open spec fn connect_reply(path: Seq<u8>, sid: Sid, engine: EngineVersion) -> PacketView {
    PacketView {
        inner: match engine {
            EngineVersion::V3 => PacketDataView::Connect(None),
            EngineVersion::V4 => PacketDataView::Connect(Some(connect_payload(sid))),
        },
        ns: path,
    }
}

/// The packet that refuses a connect to `path`.
pub open spec fn connect_refusal(path: Seq<u8>, reason: Seq<u8>) -> PacketView {
    PacketView { inner: PacketDataView::ConnectError(reason), ns: path }
}

/// The session after `p` was handed to it as a message: a packet that
/// cannot be encoded is not sent.
pub open spec fn sent(s: SessionView, p: PacketView) -> SessionView {
    if p.wf() {
        s.send(EnginePacketView::Message(encode_spec(p)))
    } else {
        s
    }
}

/// Whether `p` could be handed over: a packet that cannot be encoded
/// gives its encoding error. That the session may refuse the message is
/// the session's business: it closes itself where it must.
pub open spec fn sent_result(p: PacketView) -> Result<(), Error> {
    if p.wf() {
        Ok(())
    } else {
        Err(p.encode_error())
    }
}

/// The session after the outcome `r` of handling a packet: an error that
/// has a close reason closes it.
pub open spec fn closed_on(s: SessionView, r: Result<(), Error>) -> SessionView {
    match r {
        Err(e) => match e.close_reason() {
            Some(reason) => s.close(reason),
            None => s,
        },
        Ok(_) => s,
    }
}

/// What it produces that the session `sid` leaves the namespaces
/// `namespaces[from..]`, namespace by namespace.
pub open spec fn leave_all(
    namespaces: Seq<NamespaceView>,
    from: int,
    sid: Sid,
    reason: SocketCloseReason,
) -> Seq<NoticeView>
    decreases namespaces.len() - from,
{
    if 0 <= from < namespaces.len() {
        namespaces[from].leave_notices(sid, reason) + leave_all(namespaces, from + 1, sid, reason)
    } else {
        Seq::empty()
    }
}

/// What it produces that the namespaces `namespaces[from..]` close,
/// namespace by namespace.
pub open spec fn close_all(namespaces: Seq<NamespaceView>, from: int) -> Seq<NoticeView>
    decreases namespaces.len() - from,
{
    if 0 <= from < namespaces.len() {
        namespaces[from].close_notices() + close_all(namespaces, from + 1)
    } else {
        Seq::empty()
    }
}

/// The state of the client layer: the registered namespaces, in the
/// order of their registration, and the notices that wait to be taken.
pub struct ClientView {
    pub namespaces: Seq<NamespaceView>,
    pub notices: Seq<NoticeView>,
}

impl ClientView {
    /// The paths of the namespaces, in order.
    pub open spec fn paths(self) -> Seq<Seq<u8>> {
        Seq::new(self.namespaces.len(), |i: int| self.namespaces[i].path)
    }

    /// No path is registered twice, and every namespace is in order.
    pub open spec fn wf(self) -> bool {
        &&& self.paths().no_duplicates()
        &&& forall|i: int| 0 <= i < self.namespaces.len() ==> (#[trigger] self.namespaces[i]).wf()
    }

    /// Where the namespace `path` stands; the number of namespaces when
    /// it is not registered.
    pub open spec fn index_of(self, path: Seq<u8>) -> int {
        position(self.paths(), path, 0)
    }

    /// Whether a namespace is registered under `path`.
    pub open spec fn has_ns(self, path: Seq<u8>) -> bool {
        self.index_of(path) < self.namespaces.len()
    }

    /// The namespace `path`.
    pub open spec fn ns(self, path: Seq<u8>) -> NamespaceView {
        self.namespaces[self.index_of(path)]
    }

    /// The client with another state for the namespace `path`.
    pub open spec fn with_ns(self, path: Seq<u8>, ns: NamespaceView) -> ClientView {
        ClientView { namespaces: self.namespaces.update(self.index_of(path), ns), ..self }
    }

    /// The client with more notices.
    pub open spec fn noting(self, notices: Seq<NoticeView>) -> ClientView {
        ClientView { notices: self.notices + notices, ..self }
    }

    /// The client after `path` was registered. A namespace that was there
    /// under this path is closed and gives way to the new one, which
    /// stands last and has no sockets.
    pub open spec fn added(self, path: Seq<u8>) -> ClientView {
        let cleared = self.deleted(path);
        ClientView { namespaces: cleared.namespaces.push(NamespaceView::empty(path)), ..cleared }
    }

    /// The client after `path` was deleted: the namespace is gone and all
    /// its sockets are closed.
    pub open spec fn deleted(self, path: Seq<u8>) -> ClientView {
        if self.has_ns(path) {
            ClientView {
                namespaces: self.namespaces.remove(self.index_of(path)),
                notices: self.notices + self.ns(path).close_notices(),
            }
        } else {
            self
        }
    }

    /// How a packet for the session `sid` is received: by the namespace
    /// it names; a packet for a namespace that is not registered is
    /// dropped.
    pub open spec fn propagate_result(self, p: PacketView, sid: Sid) -> Result<(), Error> {
        if self.has_ns(p.ns) {
            self.ns(p.ns).recv_result(sid, p.inner)
        } else {
            Ok(())
        }
    }

    /// The client after a packet for the session `sid`.
    pub open spec fn propagate(self, p: PacketView, sid: Sid) -> ClientView {
        if self.has_ns(p.ns) {
            self.with_ns(p.ns, self.ns(p.ns).recv(sid, p.inner)).noting(
                self.ns(p.ns).recv_notices(sid, p.inner),
            )
        } else {
            self
        }
    }

    /// The client after the connect callback of `path` spoke on the
    /// session `sid`.
    pub open spec fn admitted(self, path: Seq<u8>, sid: Sid, accepted: bool) -> ClientView {
        if self.has_ns(path) {
            self.with_ns(path, self.ns(path).admitted(sid, accepted))
        } else {
            self
        }
    }

    /// The client after the socket of `sid` in `path` joined `rooms`.
    pub open spec fn joined(self, path: Seq<u8>, sid: Sid, rooms: Seq<Seq<u8>>) -> ClientView {
        if self.has_ns(path) {
            self.with_ns(path, self.ns(path).joined(sid, rooms))
        } else {
            self
        }
    }

    /// Whether the socket of `sid` in `path` can join rooms.
    pub open spec fn join_result(self, path: Seq<u8>, sid: Sid) -> Result<(), Error> {
        if !self.has_ns(path) {
            Err(Error::InvalidNamespace)
        } else if !self.ns(path).has_socket(sid) {
            Err(Error::SocketGone(sid))
        } else {
            Ok(())
        }
    }

    /// The client after the socket of `sid` in `path` left `rooms`.
    pub open spec fn left(self, path: Seq<u8>, sid: Sid, rooms: Seq<Seq<u8>>) -> ClientView {
        if self.has_ns(path) {
            self.with_ns(path, self.ns(path).left(sid, rooms))
        } else {
            self
        }
    }

    /// The client after `packet` was broadcast in `path`.
    pub open spec fn broadcast(
        self,
        path: Seq<u8>,
        packet: PacketDataView,
        opts: BroadcastOptionsView,
    ) -> ClientView {
        if self.has_ns(path) {
            self.noting(self.ns(path).broadcast_notices(packet, opts))
        } else {
            self
        }
    }

    /// The client after the event `data` was broadcast in `path` for
    /// acknowledgement.
    pub open spec fn broadcast_with_ack(
        self,
        path: Seq<u8>,
        data: Seq<u8>,
        opts: BroadcastOptionsView,
    ) -> ClientView {
        if self.has_ns(path) {
            let ns = self.ns(path);
            self.with_ns(path, ns.awaiting_all(ns.targets(opts), 0)).noting(
                ns.ack_notices(ns.targets(opts), 0, data),
            )
        } else {
            self
        }
    }

    /// The client after the server closed the sockets of `path` that
    /// `opts` means.
    pub open spec fn disconnect_sockets(
        self,
        path: Seq<u8>,
        opts: BroadcastOptionsView,
    ) -> ClientView {
        if self.has_ns(path) {
            let ns = self.ns(path);
            self.with_ns(path, ns.without_all(ns.targets(opts), 0)).noting(
                ns.drop_notices(ns.targets(opts), 0),
            )
        } else {
            self
        }
    }

    /// Whether the socket of `sid` in `path` awaits the answer to ack id
    /// `id`.
    pub open spec fn awaits(self, path: Seq<u8>, sid: Sid, id: u64) -> bool {
        &&& self.has_ns(path)
        &&& self.ns(path).has_socket(sid)
        &&& self.ns(path).socket(sid).pending.contains(id)
    }

    /// The client after the wait for the answer to ack id `id` of the
    /// socket of `sid` in `path` ran out.
    pub open spec fn ack_timeout(self, path: Seq<u8>, sid: Sid, id: u64) -> ClientView {
        if self.awaits(path, sid, id) {
            let ns = self.ns(path);
            self.with_ns(path, ns.with_socket(sid, ns.socket(sid).settled(id))).noting(
                seq![
                    NoticeView::AckFailed {
                        ns: ns.path,
                        sid,
                        id,
                        error: AckError::Timeout,
                    },
                ],
            )
        } else {
            self
        }
    }

    /// The client after the session `sid` ended: its socket is gone from
    /// every namespace.
    pub open spec fn disconnected(self, sid: Sid, reason: DisconnectReason) -> ClientView {
        ClientView {
            namespaces: Seq::new(self.namespaces.len(), |i: int| self.namespaces[i].without(sid)),
            notices: self.notices + leave_all(
                self.namespaces,
                0,
                sid,
                SocketCloseReason::Engine(reason),
            ),
        }
    }

    /// The client after every namespace closed all its sockets.
    pub open spec fn closed(self) -> ClientView {
        ClientView {
            namespaces: Seq::new(self.namespaces.len(), |i: int| self.namespaces[i].closed()),
            notices: self.notices + close_all(self.namespaces, 0),
        }
    }
}

/// The client layer. `A` is the adapter that keeps the rooms of each
/// namespace, `C` the type of the namespaces' connect callbacks.
pub struct Client<A, C> {
    config: Arc<SocketIoConfig>,
    ns: Vec<Namespace<A, C>>,
    notices: Vec<Notice>,
}

impl<A: Adapter, C> View for Client<A, C> {
    type V = ClientView;

    closed spec fn view(&self) -> ClientView {
        ClientView {
            namespaces: Seq::new(self.ns@.len(), |i: int| self.ns@[i]@),
            notices: notices_view(self.notices@),
        }
    }
}

impl<A: Adapter, C: Fn(Sid, Vec<u8>) -> Result<(), Vec<u8>>> Client<A, C> {
    /// The invariant of the client layer.
    pub closed spec fn wf(&self) -> bool {
        &&& self@.wf()
        &&& forall|i: int| 0 <= i < self.ns@.len() ==> (#[trigger] self.ns@[i]).wf()
    }

    /// The connect callbacks of the namespaces, in order.
    pub closed spec fn callbacks(&self) -> Seq<C> {
        Seq::new(self.ns@.len(), |i: int| self.ns@[i].callback())
    }

    /// The configuration.
    pub closed spec fn spec_config(&self) -> SocketIoConfig {
        *self.config
    }

    /// `verdict` is an answer that the namespace `path` may give to the
    /// connect of the session `sid` with `auth`: a session that is
    /// connected already is accepted; any other is judged by the
    /// namespace's callback.
    pub open spec fn may_answer(
        &self,
        path: Seq<u8>,
        sid: Sid,
        auth: Vec<u8>,
        verdict: Result<(), Vec<u8>>,
    ) -> bool {
        if self@.ns(path).has_socket(sid) {
            verdict is Ok
        } else {
            call_ensures(self.callbacks()[self@.index_of(path)], (sid, auth), verdict)
        }
    }

    /// A client layer without namespaces.
    pub fn new(config: Arc<SocketIoConfig>) -> (client: Self)
        ensures
            client.wf(),
            client@ == (ClientView { namespaces: Seq::empty(), notices: Seq::empty() }),
            client.spec_config() == *config,
    {
        let client = Client { config, ns: Vec::new(), notices: Vec::new() };
        assert(client@.namespaces =~= Seq::empty());
        assert(client@.notices =~= Seq::empty());
        client
    }

    /// The configuration.
    pub fn config(&self) -> (config: &SocketIoConfig)
        ensures
            *config == self.spec_config(),
    {
        &self.config
    }

    /// Takes the notices that have gathered.
    pub fn take_notices(&mut self) -> (notices: Vec<Notice>)
        requires
            old(self).wf(),
        ensures
            final(self).wf(),
            final(self).callbacks() == old(self).callbacks(),
            notices_view(notices@) == old(self)@.notices,
            final(self)@ == (ClientView { notices: Seq::empty(), ..old(self)@ }),
    {
        let mut taken: Vec<Notice> = Vec::new();
        std::mem::swap(&mut taken, &mut self.notices);
        assert(self@.notices =~= Seq::empty());
        assert(self@.namespaces =~= old(self)@.namespaces);
        taken
    }

    fn find_ns(&self, path: &[u8]) -> (i: usize)
        ensures
            i == self@.index_of(path@),
            i <= self@.namespaces.len(),
            self@.namespaces.len() == self.ns@.len(),
            i < self@.namespaces.len() ==> self@.namespaces[i as int].path == path@,
    {
        let ghost paths = self@.paths();
        let mut i: usize = 0;
        while i < self.ns.len() && !bytes_eq(self.ns[i].path(), path)
            invariant
                i <= self.ns.len(),
                paths == self@.paths(),
                paths.len() == self.ns@.len(),
                position(paths, path@, 0) == position(paths, path@, i as int),
            decreases self.ns.len() - i,
        {
            i += 1;
        }
        proof {
            lemma_position(paths, path@, 0);
        }
        i
    }

    /// A client that is in order has a state that is in order, and a
    /// callback for every namespace.
    pub proof fn lemma_wf(&self)
        requires
            self.wf(),
        ensures
            self@.wf(),
            self.callbacks().len() == self@.namespaces.len(),
    {
    }

    /// The connect callback of the namespace `path`.
    pub open spec fn callback_of(&self, path: Seq<u8>) -> C {
        self.callbacks()[self@.index_of(path)]
    }

    /// Every namespace but `path` is registered in `post` exactly if it
    /// was in `pre`, in the state it had and with the callback it had.
    pub open spec fn others_kept(pre: Self, post: Self, path: Seq<u8>) -> bool {
        forall|q: Seq<u8>|
            q != path ==> (#[trigger] post@.has_ns(q)) == pre@.has_ns(q) && (pre@.has_ns(q)
                ==> post@.ns(q) == pre@.ns(q) && post.callback_of(q) == pre.callback_of(q))
    }

    /// Registers the namespace `path` with its connect callback; see
    /// [`ClientView::added`]. Afterwards `path` names an empty namespace
    /// that asks `callback`; a namespace that was registered under
    /// `path` before is closed and gone; every other namespace is as it
    /// was.
    pub fn add_ns(&mut self, path: String, callback: C)
        requires
            old(self).wf(),
            forall|sid: Sid, auth: Vec<u8>| call_requires(callback, (sid, auth)),
        ensures
            final(self).wf(),
            final(self)@ == old(self)@.added(path_bytes(path@)),
            final(self).callbacks() == old(self).callbacks_without(path_bytes(path@)).push(
                callback,
            ),
            final(self)@.has_ns(path_bytes(path@)),
            final(self)@.ns(path_bytes(path@)) == NamespaceView::empty(path_bytes(path@)),
            final(self).callback_of(path_bytes(path@)) == callback,
            Self::others_kept(*old(self), *final(self), path_bytes(path@)),
    {
        self.delete_ns(path.as_str());
        let bytes = path.as_str().as_bytes();
        let ghost paths = self@.paths();
        let ghost before = self.callbacks();
        let ghost mid = *self;
        proof {
            lemma_position_contains(paths, bytes@);
        }
        let ns = Namespace::new(copy_range(bytes, 0, bytes.len()), callback);
        assert(bytes@.subrange(0, bytes@.len() as int) == bytes@);
        self.ns.push(ns);
        proof {
            assert(self@.namespaces =~= old(self)@.added(bytes@).namespaces);
            assert(self@.paths() =~= paths.push(bytes@));
            assert(self.callbacks() =~= before.push(callback));
            assert(NamespaceView::empty(bytes@).sids() =~= Seq::empty());
            lemma_position_push(paths, bytes@, bytes@);
            let before_all = *old(self);
            assert forall|q: Seq<u8>| q != bytes@ implies (#[trigger] self@.has_ns(q))
                == before_all@.has_ns(q) && (before_all@.has_ns(q) ==> self@.ns(q)
                == before_all@.ns(q) && self.callback_of(q) == before_all.callback_of(q)) by {
                lemma_position_push(paths, bytes@, q);
                assert(mid@.has_ns(q) == old(self)@.has_ns(q));
                assert(mid@.paths() == paths);
                assert(mid.callbacks() == before);
                let k = position(paths, q, 0);
                lemma_position(paths, q, 0);
                assert(mid@.namespaces.len() == paths.len());
                if k < paths.len() {
                    assert(self@.index_of(q) == k);
                    assert(self@.namespaces[k] == mid@.namespaces[k]);
                    assert(self.callbacks()[k] == before[k]);
                    assert(mid@.ns(q) == old(self)@.ns(q));
                    assert(mid.callback_of(q) == old(self).callback_of(q));
                }
            }
        }
    }

    /// The callbacks that stay when `path` is deleted.
    pub open spec fn callbacks_without(&self, path: Seq<u8>) -> Seq<C> {
        if self@.has_ns(path) {
            self.callbacks().remove(self@.index_of(path))
        } else {
            self.callbacks()
        }
    }

    /// Deletes the namespace `path` and closes all its sockets; see
    /// [`ClientView::deleted`]. Nothing happens when it is not
    /// registered.
    pub fn delete_ns(&mut self, path: &str)
        requires
            old(self).wf(),
        ensures
            final(self).wf(),
            final(self)@ == old(self)@.deleted(path_bytes(path@)),
            final(self).callbacks() == old(self).callbacks_without(path_bytes(path@)),
            !final(self)@.has_ns(path_bytes(path@)),
            Self::others_kept(*old(self), *final(self), path_bytes(path@)),
    {
        let bytes = path.as_bytes();
        let i = self.find_ns(bytes);
        let ghost paths = self@.paths();
        proof {
            lemma_position_contains(paths, bytes@);
        }
        if i >= self.ns.len() {
            return ;
        }
        let mut ns = self.ns.remove(i);
        ns.close(&mut self.notices);
        proof {
            assert(self@.namespaces =~= old(self)@.namespaces.remove(i as int));
            assert(self@.paths() =~= paths.remove(i as int));
            lemma_remove_absent(paths, i as int);
            assert(self.callbacks() =~= old(self).callbacks().remove(i as int));
            lemma_position_contains(self@.paths(), bytes@);
            let before_all = *old(self);
            assert forall|q: Seq<u8>| q != bytes@ implies (#[trigger] self@.has_ns(q))
                == before_all@.has_ns(q) && (before_all@.has_ns(q) ==> self@.ns(q)
                == before_all@.ns(q) && self.callback_of(q) == before_all.callback_of(q)) by {
                lemma_position(paths, bytes@, 0);
                assert(paths[i as int] == bytes@);
                lemma_position_remove(paths, i as int, q);
                let k = position(paths, q, 0);
                let k2 = position(paths.remove(i as int), q, 0);
                lemma_position(paths, q, 0);
                lemma_position(paths.remove(i as int), q, 0);
                assert(old(self)@.namespaces.len() == paths.len());
                assert(self@.index_of(q) == k2);
                assert(old(self)@.index_of(q) == k);
                assert(self@.namespaces.len() == paths.len() - 1);
                assert(old(self).callbacks().len() == paths.len());
                if k < paths.len() {
                    assert(old(self)@.namespaces.remove(i as int)[k2] == old(self)@.namespaces[k]);
                    assert(old(self).callbacks().remove(i as int)[k2] == old(self).callbacks()[k]);
                }
            }
        }
    }

    /// The namespace `path`, if it is registered.
    pub fn get_ns(&self, path: &str) -> (ns: Option<&Namespace<A, C>>)
        requires
            self.wf(),
        ensures
            ns is Some <==> self@.has_ns(path_bytes(path@)),
            ns matches Some(found) ==> found@ == self@.ns(path_bytes(path@)) && found.wf()
                && found.callback() == self.callback_of(path_bytes(path@)),
    {
        let i = self.find_ns(path.as_bytes());
        if i < self.ns.len() {
            Some(&self.ns[i])
        } else {
            None
        }
    }

    /// Whether a namespace is registered under `path`.
    pub fn has_ns(&self, path: &[u8]) -> (has: bool)
        ensures
            has == self@.has_ns(path@),
    {
        self.find_ns(path) < self.ns.len()
    }

    /// Propagates a packet to the namespace it names; see
    /// [`ClientView::propagate`] and [`ClientView::propagate_result`].
    pub fn sock_propagate_packet(&mut self, packet: Packet, sid: Sid) -> (r: Result<(), Error>)
        requires
            old(self).wf(),
        ensures
            final(self).wf(),
            final(self).callbacks() == old(self).callbacks(),
            r == old(self)@.propagate_result(packet@, sid),
            final(self)@ == old(self)@.propagate(packet@, sid),
    {
        let i = self.find_ns(packet.ns.as_slice());
        if i >= self.ns.len() {
            return Ok(());
        }
        let ghost paths = self@.paths();
        let ghost before = self.callbacks();
        let mut ns = self.ns.remove(i);
        let r = ns.recv(sid, packet.inner, &mut self.notices);
        proof {
            ns.lemma_wf();
        }
        self.ns.insert(i, ns);
        proof {
            assert(self.ns@ =~= old(self).ns@.update(i as int, ns));
            assert(self@.namespaces =~= old(self)@.propagate(packet@, sid).namespaces);
            assert(self@.paths() =~= paths);
            assert(self.callbacks() =~= before);
        }
        r
    }

    /// Puts the socket of `sid` in the namespace `path` in each of
    /// `rooms`. Fails with `InvalidNamespace` when `path` is not
    /// registered and with `SocketGone` when the session has no socket
    /// there.
    pub fn join(&mut self, path: &[u8], sid: Sid, rooms: &Vec<Vec<u8>>) -> (r: Result<(), Error>)
        requires
            old(self).wf(),
        ensures
            final(self).wf(),
            final(self).callbacks() == old(self).callbacks(),
            r == old(self)@.join_result(path@, sid),
            final(self)@ == old(self)@.joined(path@, sid, rooms_view(rooms@)),
    {
        let i = self.find_ns(path);
        if i >= self.ns.len() {
            return Err(Error::InvalidNamespace);
        }
        let ghost paths = self@.paths();
        let ghost before = self.callbacks();
        let mut ns = self.ns.remove(i);
        let r = ns.join(sid, rooms);
        proof {
            ns.lemma_wf();
        }
        self.ns.insert(i, ns);
        proof {
            assert(self.ns@ =~= old(self).ns@.update(i as int, ns));
            assert(self@.namespaces =~= old(self)@.joined(
                path@,
                sid,
                rooms_view(rooms@),
            ).namespaces);
            assert(self@.paths() =~= paths);
            assert(self.callbacks() =~= before);
        }
        r
    }

    /// Takes the socket of `sid` in the namespace `path` out of each of
    /// `rooms`.
    pub fn leave(&mut self, path: &[u8], sid: Sid, rooms: &Vec<Vec<u8>>)
        requires
            old(self).wf(),
        ensures
            final(self).wf(),
            final(self).callbacks() == old(self).callbacks(),
            final(self)@ == old(self)@.left(path@, sid, rooms_view(rooms@)),
    {
        let i = self.find_ns(path);
        if i >= self.ns.len() {
            return ;
        }
        let ghost paths = self@.paths();
        let ghost before = self.callbacks();
        let mut ns = self.ns.remove(i);
        ns.leave(sid, rooms);
        proof {
            ns.lemma_wf();
        }
        self.ns.insert(i, ns);
        proof {
            assert(self.ns@ =~= old(self).ns@.update(i as int, ns));
            assert(self@.namespaces =~= old(self)@.left(
                path@,
                sid,
                rooms_view(rooms@),
            ).namespaces);
            assert(self@.paths() =~= paths);
            assert(self.callbacks() =~= before);
        }
    }

    /// Sends `packet` to the sockets of the namespace `path` that `opts`
    /// means; see [`NamespaceView::broadcast_notices`]. Nothing happens
    /// when `path` is not registered.
    pub fn broadcast(&mut self, path: &[u8], packet: &PacketData, opts: &BroadcastOptions)
        requires
            old(self).wf(),
        ensures
            final(self).wf(),
            final(self).callbacks() == old(self).callbacks(),
            final(self)@ == old(self)@.broadcast(path@, packet@, opts@),
    {
        let i = self.find_ns(path);
        if i >= self.ns.len() {
            return ;
        }
        let ghost start = self@;
        self.ns[i].broadcast(packet, opts, &mut self.notices);
        proof {
            assert(self@.namespaces =~= start.namespaces);
        }
    }

    /// Sends the event `data` to the sockets of the namespace `path`
    /// that `opts` means, to each under an ack id of its own; see
    /// [`ClientView::broadcast_with_ack`].
    pub fn broadcast_with_ack(&mut self, path: &[u8], data: &[u8], opts: &BroadcastOptions)
        requires
            old(self).wf(),
        ensures
            final(self).wf(),
            final(self).callbacks() == old(self).callbacks(),
            final(self)@ == old(self)@.broadcast_with_ack(path@, data@, opts@),
    {
        let i = self.find_ns(path);
        if i >= self.ns.len() {
            return ;
        }
        let ghost paths = self@.paths();
        let ghost before = self.callbacks();
        let mut ns = self.ns.remove(i);
        ns.broadcast_with_ack(data, opts, &mut self.notices);
        proof {
            ns.lemma_wf();
            lemma_awaiting_all_path(old(self)@.ns(path@), old(self)@.ns(path@).targets(opts@), 0);
        }
        self.ns.insert(i, ns);
        proof {
            assert(self.ns@ =~= old(self).ns@.update(i as int, ns));
            assert(self@.namespaces =~= old(self)@.broadcast_with_ack(
                path@,
                data@,
                opts@,
            ).namespaces);
            assert(self@.paths() =~= paths);
            assert(self.callbacks() =~= before);
        }
    }

    /// Closes the sockets of the namespace `path` that `opts` means; see
    /// [`ClientView::disconnect_sockets`].
    pub fn disconnect_sockets(&mut self, path: &[u8], opts: &BroadcastOptions)
        requires
            old(self).wf(),
        ensures
            final(self).wf(),
            final(self).callbacks() == old(self).callbacks(),
            final(self)@ == old(self)@.disconnect_sockets(path@, opts@),
    {
        let i = self.find_ns(path);
        if i >= self.ns.len() {
            return ;
        }
        let ghost paths = self@.paths();
        let ghost before = self.callbacks();
        let mut ns = self.ns.remove(i);
        ns.disconnect_sockets(opts, &mut self.notices);
        proof {
            ns.lemma_wf();
            lemma_without_all_path(old(self)@.ns(path@), old(self)@.ns(path@).targets(opts@), 0);
        }
        self.ns.insert(i, ns);
        proof {
            assert(self.ns@ =~= old(self).ns@.update(i as int, ns));
            assert(self@.namespaces =~= old(self)@.disconnect_sockets(path@, opts@).namespaces);
            assert(self@.paths() =~= paths);
            assert(self.callbacks() =~= before);
        }
    }

    /// The wait for the answer to ack id `id` of the socket of `sid` in
    /// the namespace `path` has taken too long; see
    /// [`ClientView::ack_timeout`]. Returns whether anybody waited.
    pub fn ack_timeout(&mut self, path: &[u8], sid: Sid, id: u64) -> (awaited: bool)
        requires
            old(self).wf(),
        ensures
            final(self).wf(),
            final(self).callbacks() == old(self).callbacks(),
            awaited == old(self)@.awaits(path@, sid, id),
            final(self)@ == old(self)@.ack_timeout(path@, sid, id),
    {
        let i = self.find_ns(path);
        if i >= self.ns.len() {
            return false;
        }
        let ghost paths = self@.paths();
        let ghost before = self.callbacks();
        let mut ns = self.ns.remove(i);
        let awaited = ns.ack_timeout(sid, id, &mut self.notices);
        proof {
            ns.lemma_wf();
        }
        self.ns.insert(i, ns);
        proof {
            assert(self.ns@ =~= old(self).ns@.update(i as int, ns));
            assert(self@.namespaces =~= old(self)@.ack_timeout(path@, sid, id).namespaces);
            assert(self@.notices =~= old(self)@.ack_timeout(path@, sid, id).notices);
            assert(self@.paths() =~= paths);
            assert(self.callbacks() =~= before);
        }
        awaited
    }

    /// The session `sid` ended for `reason`: its socket leaves every
    /// namespace; see [`ClientView::disconnected`].
    fn leave_namespaces(&mut self, sid: Sid, reason: DisconnectReason)
        requires
            old(self).wf(),
        ensures
            final(self).wf(),
            final(self).callbacks() == old(self).callbacks(),
            final(self)@ == old(self)@.disconnected(sid, reason),
    {
        let ghost start = self@;
        let ghost paths = self@.paths();
        let ghost before = self.callbacks();
        let why = SocketCloseReason::Engine(reason);
        let mut i: usize = 0;
        assert(start.notices + Seq::<NoticeView>::empty() =~= start.notices);
        while i < self.ns.len()
            invariant
                i <= self.ns.len(),
                self.wf(),
                start == old(self)@,
                self.ns@.len() == start.namespaces.len(),
                self@.paths() == paths,
                self.callbacks() == before,
                forall|k: int| 0 <= k < i ==> self@.namespaces[k] == start.namespaces[k].without(sid),
                forall|k: int|
                    i <= k < start.namespaces.len() ==> self@.namespaces[k] == start.namespaces[k],
                self@.notices + leave_all(start.namespaces, i as int, sid, why) == start.notices
                    + leave_all(start.namespaces, 0, sid, why),
            decreases self.ns.len() - i,
        {
            let ghost sofar = self@;
            let ghost calls = self.callbacks();
            let ghost list = self.ns@;
            let mut ns = self.ns.remove(i);
            ns.remove_socket(sid, why, &mut self.notices);
            proof {
                ns.lemma_wf();
            }
            self.ns.insert(i, ns);
            proof {
                assert(self.ns@ =~= list.update(i as int, ns));
                assert(self@.namespaces =~= sofar.namespaces.update(
                    i as int,
                    start.namespaces[i as int].without(sid),
                ));
                assert(self@.paths() =~= paths);
                assert(self.callbacks() =~= calls);
                assert(sofar.notices + leave_all(start.namespaces, i as int, sid, why) =~= (
                sofar.notices + start.namespaces[i as int].leave_notices(sid, why)) + leave_all(
                    start.namespaces,
                    i + 1,
                    sid,
                    why,
                ));
            }
            i += 1;
        }
        proof {
            assert(self@.notices + Seq::<NoticeView>::empty() =~= self@.notices);
            assert(self@.namespaces =~= start.disconnected(sid, reason).namespaces);
        }
    }

    /// Closes every socket of every namespace; see
    /// [`ClientView::closed`]. The namespaces stay registered.
    pub fn close(&mut self)
        requires
            old(self).wf(),
        ensures
            final(self).wf(),
            final(self).callbacks() == old(self).callbacks(),
            final(self)@ == old(self)@.closed(),
    {
        let ghost start = self@;
        let ghost paths = self@.paths();
        let ghost before = self.callbacks();
        let mut i: usize = 0;
        assert(start.notices + Seq::<NoticeView>::empty() =~= start.notices);
        while i < self.ns.len()
            invariant
                i <= self.ns.len(),
                self.wf(),
                start == old(self)@,
                self.ns@.len() == start.namespaces.len(),
                self@.paths() == paths,
                self.callbacks() == before,
                forall|k: int| 0 <= k < i ==> self@.namespaces[k] == start.namespaces[k].closed(),
                forall|k: int|
                    i <= k < start.namespaces.len() ==> self@.namespaces[k] == start.namespaces[k],
                self@.notices + close_all(start.namespaces, i as int) == start.notices + close_all(
                    start.namespaces,
                    0,
                ),
            decreases self.ns.len() - i,
        {
            let ghost sofar = self@;
            let ghost calls = self.callbacks();
            let ghost list = self.ns@;
            let mut ns = self.ns.remove(i);
            ns.close(&mut self.notices);
            proof {
                ns.lemma_wf();
            }
            self.ns.insert(i, ns);
            proof {
                assert(self.ns@ =~= list.update(i as int, ns));
                assert(self@.namespaces =~= sofar.namespaces.update(
                    i as int,
                    start.namespaces[i as int].closed(),
                ));
                assert(self@.paths() =~= paths);
                assert(self.callbacks() =~= calls);
                assert(sofar.notices + close_all(start.namespaces, i as int) =~= (sofar.notices
                    + start.namespaces[i as int].close_notices()) + close_all(
                    start.namespaces,
                    i + 1,
                ));
            }
            i += 1;
        }
        proof {
            assert(self@.notices + Seq::<NoticeView>::empty() =~= self@.notices);
            assert(self@.namespaces =~= start.closed().namespaces);
        }
    }

    /// What a connect leads to once the namespace has given its
    /// `verdict`.
    ///
    /// The verdict is recorded in the namespace. An accepted session is
    /// sent the connect packet and its connect timer stops. A refused
    /// session is sent a connect error with the callback's reason; where
    /// that reason cannot be framed nothing is sent. Either way the
    /// session stays as open as it was.
    pub open spec fn connect_post(
        pre: ClientView,
        post: ClientView,
        s0: SessionView,
        s1: SessionView,
        timer0: bool,
        timer1: bool,
        r: Result<(), Error>,
        path: Seq<u8>,
        verdict: Result<(), Vec<u8>>,
    ) -> bool {
        &&& post == pre.admitted(path, s0.id, verdict is Ok)
        &&& match verdict {
            Ok(_) => s1 == sent(s0, connect_reply(path, s0.id, s0.protocol)) && r is Ok && !timer1,
            Err(reason) => s1 == sent(s0, connect_refusal(path, reason@)) && r is Ok && timer1
                == timer0,
        }
    }

    /// What the connect of a session to the namespace `path` with the
    /// payload `auth` leads to.
    ///
    /// Where `path` is not registered, a version 4 peer that asks for the
    /// default namespace has its session closed with `TransportClose`;
    /// any other peer is sent the connect error `Invalid namespace`,
    /// unless the path cannot be framed, and stays. Neither is an error.
    /// Where `path` is registered, the namespace gives a verdict
    /// that it may give, and [`Self::connect_post`] holds of it; but if
    /// the connect packet cannot be encoded, nothing happens and the
    /// encoding error comes back.
    pub open spec fn connect_relation(
        pre: Self,
        post: Self,
        s0: SessionView,
        s1: SessionView,
        timer0: bool,
        timer1: bool,
        r: Result<(), Error>,
        path: Seq<u8>,
        auth: Vec<u8>,
    ) -> bool {
        let reply = connect_reply(path, s0.id, s0.protocol);
        let unknown = PacketView {
            inner: PacketDataView::ConnectError(invalid_namespace_text()),
            ns: path,
        };
        if !pre@.has_ns(path) {
            &&& post@ == pre@
            &&& timer1 == timer0
            &&& if s0.protocol is V3 && path == root_ns() {
                s1 == s0.close(DisconnectReason::TransportClose) && r is Ok
            } else {
                s1 == sent(s0, unknown) && r is Ok
            }
        } else if !reply.wf() {
            &&& post@ == pre@
            &&& timer1 == timer0
            &&& s1 == s0
            &&& r == Err::<(), Error>(reply.encode_error())
        } else {
            exists|verdict: Result<(), Vec<u8>>|
                pre.may_answer(path, s0.id, auth, verdict) && #[trigger] Self::connect_post(
                    pre@,
                    post@,
                    s0,
                    s1,
                    timer0,
                    timer1,
                    r,
                    path,
                    verdict,
                )
        }
    }

    /// The auth payload of a connect packet; the text `null` where the
    /// packet has none.
    pub open spec fn auth_text(p: PacketView) -> Seq<u8> {
        match p.inner {
            PacketDataView::Connect(Some(auth)) => auth,
            _ => seq![110u8, 117, 108, 108],
        }
    }

    /// What a complete packet `p` from a session leads to.
    ///
    /// A connect packet runs the connect handshake with its namespace;
    /// see [`Self::connect_relation`]. Any other packet is propagated to
    /// its namespace; see [`ClientView::propagate`]. Either way, an error
    /// that has a close reason closes the session.
    pub open spec fn routed(
        pre: Self,
        post: Self,
        s0: SessionView,
        s1: SessionView,
        timer0: bool,
        timer1: bool,
        p: PacketView,
    ) -> bool {
        if p.inner is Connect {
            exists|auth: Vec<u8>, mid: SessionView, r: Result<(), Error>|
                auth@ == Self::auth_text(p) && #[trigger] Self::connect_relation(
                    pre,
                    post,
                    s0,
                    mid,
                    timer0,
                    timer1,
                    r,
                    p.ns,
                    auth,
                ) && s1 == closed_on(mid, r)
        } else {
            &&& post@ == pre@.propagate(p, s0.id)
            &&& s1 == closed_on(s0, pre@.propagate_result(p, s0.id))
            &&& timer1 == timer0
        }
    }

    /// Called when a session asks to connect to a namespace; see
    /// [`Self::connect_relation`].
    pub fn sock_connect(
        &mut self,
        auth: Vec<u8>,
        ns_path: Vec<u8>,
        socket: &mut Session,
        data: &mut SocketData,
    ) -> (r: Result<(), Error>)
        requires
            old(self).wf(),
            old(socket)@.wf(),
        ensures
            final(self).wf(),
            final(socket)@.wf(),
            final(socket)@.id == old(socket)@.id,
            final(self).callbacks() == old(self).callbacks(),
            final(data)@.partial == old(data)@.partial,
            Self::connect_relation(
                *old(self),
                *final(self),
                old(socket)@,
                final(socket)@,
                old(data)@.connect_timer,
                final(data)@.connect_timer,
                r,
                ns_path@,
                auth,
            ),
    {
        let sid = socket.id();
        let i = self.find_ns(ns_path.as_slice());
        let legacy = match socket.protocol() {
            EngineVersion::V3 => true,
            EngineVersion::V4 => false,
        };
        if i >= self.ns.len() {
            if legacy && is_root_ns(ns_path.as_slice()) {
                socket.close(DisconnectReason::TransportClose);
                return Ok(());
            }
            let packet = Packet::invalid_namespace(ns_path);
            let _ = send_packet(socket, &packet);
            return Ok(());
        }
        let path = copy_range(ns_path.as_slice(), 0, ns_path.len());
        assert(ns_path@.subrange(0, ns_path@.len() as int) == ns_path@);
        let protocol = if legacy {
            ProtocolVersion::V4
        } else {
            ProtocolVersion::V5
        };
        let reply = Packet::connect(ns_path, sid, protocol);
        let bytes = match reply.encode() {
            Ok(bytes) => bytes,
            Err(e) => {
                return Err(e);
            },
        };
        let ghost paths = self@.paths();
        let ghost before = self.callbacks();
        let mut ns = self.ns.remove(i);
        let verdict = ns.connect(sid, auth);
        let ghost answer = verdict;
        proof {
            ns.lemma_wf();
        }
        self.ns.insert(i, ns);
        proof {
            assert(self.ns@ =~= old(self).ns@.update(i as int, ns));
            assert(self@.namespaces =~= old(self)@.admitted(path@, sid, verdict is Ok).namespaces);
            assert(self@.paths() =~= paths);
            assert(self.callbacks() =~= before);
            assert(old(self).may_answer(path@, sid, auth, answer));
        }
        let r = match verdict {
            Ok(_) => {
                data.connect_timer = false;
                let _ = socket.emit(bytes);
                Ok(())
            },
            Err(reason) => {
                let refusal = Packet { inner: PacketData::ConnectError(reason), ns: path };
                let _ = send_packet(socket, &refusal);
                Ok(())
            },
        };
        proof {
            assert(Self::connect_post(
                old(self)@,
                self@,
                old(socket)@,
                socket@,
                old(data)@.connect_timer,
                data@.connect_timer,
                r,
                path@,
                answer,
            ));
        }
        r
    }

    /// Keeps a binary packet until its attachments have arrived.
    pub fn sock_recv_bin_packet(data: &mut SocketData, packet: Packet)
        requires
            packet@.expects_more(),
        ensures
            final(data)@ == (SocketDataView { partial: Some(packet@), ..old(data)@ }),
            final(data)@.wf(),
    {
        data.partial_bin_packet = Some(packet);
    }

    /// Adds an attachment to the binary packet that waits for it, and
    /// tells whether the packet is now complete. With no packet waiting
    /// the attachment is refused as `UnexpectedBinary`.
    pub fn apply_payload_on_packet(payload: Vec<u8>, data: &mut SocketData) -> (r: Result<
        bool,
        Error,
    >)
        requires
            old(data)@.wf(),
        ensures
            final(data)@.connect_timer == old(data)@.connect_timer,
            match old(data)@.partial {
                None => r == Err::<bool, Error>(Error::UnexpectedBinary) && final(data)@.partial
                    is None,
                Some(p) => r == Ok::<bool, Error>(!p.add_payload(payload@).expects_more())
                    && final(data)@.partial == Some(p.add_payload(payload@)),
            },
    {
        let mut waiting: Option<Packet> = None;
        std::mem::swap(&mut waiting, &mut data.partial_bin_packet);
        match waiting {
            None => Err(Error::UnexpectedBinary),
            Some(packet) => {
                let packet = packet.add_payload(payload);
                let complete = !packet.expects_more();
                data.partial_bin_packet = Some(packet);
                Ok(complete)
            },
        }
    }

    /// Takes a text frame into the reassembly; see
    /// [`crate::reassembly::feed_step`]. A frame that arrives while a
    /// binary packet waits for attachments is refused as
    /// `MissingAttachments`, and the packet that waited is dropped; a
    /// frame that does not decode is refused with its decoding error. A
    /// binary packet that declares attachments is kept and `None` comes
    /// back; any other packet comes back complete.
    pub fn accept_text(msg: &[u8], data: &mut SocketData) -> (r: Result<Option<Packet>, Error>)
        ensures
            step_of(r) == feed_step(old(data)@.partial, Input::Text(msg@)),
            final(data)@.partial == feed_state(old(data)@.partial, Input::Text(msg@)),
            final(data)@.connect_timer == old(data)@.connect_timer,
    {
        if data.partial_bin_packet.is_some() {
            data.partial_bin_packet = None;
            return Err(Error::MissingAttachments);
        }
        let packet = match Packet::decode(msg) {
            Ok(packet) => packet,
            Err(e) => {
                return Err(e);
            },
        };
        if packet.expects_more() {
            Self::sock_recv_bin_packet(data, packet);
            Ok(None)
        } else {
            Ok(Some(packet))
        }
    }

    /// Takes a binary frame into the reassembly; see
    /// [`crate::reassembly::feed_step`]. With no packet waiting the frame
    /// is refused as `UnexpectedBinary`. Otherwise it joins the packet
    /// that waits, which comes back when it is complete.
    pub fn accept_binary(payload: Vec<u8>, data: &mut SocketData) -> (r: Result<
        Option<Packet>,
        Error,
    >)
        requires
            old(data)@.wf(),
        ensures
            step_of(r) == feed_step(old(data)@.partial, Input::Binary(payload@)),
            final(data)@.partial == feed_state(old(data)@.partial, Input::Binary(payload@)),
            final(data)@.connect_timer == old(data)@.connect_timer,
    {
        match Self::apply_payload_on_packet(payload, data) {
            Err(e) => Err(e),
            Ok(false) => Ok(None),
            Ok(true) => {
                let mut complete: Option<Packet> = None;
                std::mem::swap(&mut complete, &mut data.partial_bin_packet);
                Ok(complete)
            },
        }
    }

    /// Handles a complete packet; see [`Self::routed`].
    pub fn route(&mut self, packet: Packet, socket: &mut Session, data: &mut SocketData)
        requires
            old(self).wf(),
            old(socket)@.wf(),
        ensures
            final(self).wf(),
            final(socket)@.wf(),
            final(socket)@.id == old(socket)@.id,
            final(self).callbacks() == old(self).callbacks(),
            final(data)@.partial == old(data)@.partial,
            Self::routed(
                *old(self),
                *final(self),
                old(socket)@,
                final(socket)@,
                old(data)@.connect_timer,
                final(data)@.connect_timer,
                packet@,
            ),
    {
        let sid = socket.id();
        let ghost p = packet@;
        match packet {
            Packet { inner: PacketData::Connect(auth), ns } => {
                let auth = match auth {
                    Some(auth) => auth,
                    None => {
                        let null: Vec<u8> = vec![110u8, 117, 108, 108];
                        assert(null@ =~= Self::auth_text(p));
                        null
                    },
                };
                let res = self.sock_connect(auth, ns, socket, data);
                let ghost mid = socket@;
                close_on_error(socket, res);
                proof {
                    assert(Self::connect_relation(
                        *old(self),
                        *self,
                        old(socket)@,
                        mid,
                        old(data)@.connect_timer,
                        data@.connect_timer,
                        res,
                        p.ns,
                        auth,
                    ));
                }
            },
            other => {
                let res = self.sock_propagate_packet(other, sid);
                close_on_error(socket, res);
            },
        }
    }

    /// Called with every text message of a session.
    ///
    /// The message is one frame for the reassembly of
    /// [`crate::reassembly`]: a violation closes the session with
    /// `PacketParsingError`, a binary packet that declares attachments is
    /// kept, and a complete packet is handled; see [`Self::routed`].
    pub fn on_message(&mut self, msg: Vec<u8>, socket: &mut Session, data: &mut SocketData)
        requires
            old(self).wf(),
            old(socket)@.wf(),
            old(data)@.wf(),
        ensures
            final(self).wf(),
            final(socket)@.wf(),
            final(socket)@.id == old(socket)@.id,
            final(data)@.wf(),
            final(self).callbacks() == old(self).callbacks(),
            final(data)@.partial == feed_state(old(data)@.partial, Input::Text(msg@)),
            match feed_step(old(data)@.partial, Input::Text(msg@)) {
                Step::Violation(_) => final(socket)@ == old(socket)@.close(
                    DisconnectReason::PacketParsingError,
                ) && final(self)@ == old(self)@ && final(data)@.connect_timer
                    == old(data)@.connect_timer,
                Step::Hold => final(socket)@ == old(socket)@ && final(self)@ == old(self)@
                    && final(data)@.connect_timer == old(data)@.connect_timer,
                Step::Forward(p) => Self::routed(
                    *old(self),
                    *final(self),
                    old(socket)@,
                    final(socket)@,
                    old(data)@.connect_timer,
                    final(data)@.connect_timer,
                    p,
                ),
            },
    {
        match Self::accept_text(msg.as_slice(), data) {
            Err(_) => {
                socket.close(DisconnectReason::PacketParsingError);
            },
            Ok(None) => {},
            Ok(Some(packet)) => {
                self.route(packet, socket, data);
            },
        }
    }

    /// Called with every binary message of a session: it is an
    /// attachment of the binary packet that waits. When the packet is
    /// complete it is handled; see [`Self::routed`]. With no packet
    /// waiting the session is closed with `PacketParsingError`.
    pub fn on_binary(&mut self, payload: Vec<u8>, socket: &mut Session, data: &mut SocketData)
        requires
            old(self).wf(),
            old(socket)@.wf(),
            old(data)@.wf(),
        ensures
            final(self).wf(),
            final(socket)@.wf(),
            final(socket)@.id == old(socket)@.id,
            final(data)@.wf(),
            final(self).callbacks() == old(self).callbacks(),
            final(data)@.partial == feed_state(old(data)@.partial, Input::Binary(payload@)),
            match feed_step(old(data)@.partial, Input::Binary(payload@)) {
                Step::Violation(_) => final(socket)@ == old(socket)@.close(
                    DisconnectReason::PacketParsingError,
                ) && final(self)@ == old(self)@ && final(data)@.connect_timer
                    == old(data)@.connect_timer,
                Step::Hold => final(socket)@ == old(socket)@ && final(self)@ == old(self)@
                    && final(data)@.connect_timer == old(data)@.connect_timer,
                Step::Forward(p) => Self::routed(
                    *old(self),
                    *final(self),
                    old(socket)@,
                    final(socket)@,
                    old(data)@.connect_timer,
                    final(data)@.connect_timer,
                    p,
                ),
            },
    {
        match Self::accept_binary(payload, data) {
            Err(_) => {
                socket.close(DisconnectReason::PacketParsingError);
            },
            Ok(None) => {},
            Ok(Some(packet)) => {
                self.route(packet, socket, data);
            },
        }
    }

    /// Starts the time that a version 5 peer has to connect to a
    /// namespace: the timer is marked as running, and a notice asks for
    /// it to be set to the configured timeout.
    pub fn spawn_connect_timeout_task(&mut self, socket: &Session, data: &mut SocketData)
        requires
            old(self).wf(),
        ensures
            final(self).wf(),
            final(self).callbacks() == old(self).callbacks(),
            final(data)@ == (SocketDataView { connect_timer: true, ..old(data)@ }),
            final(self)@ == old(self)@.noting(
                seq![
                    NoticeView::ConnectTimer {
                        sid: socket@.id,
                        after: old(self).spec_config().connect_timeout,
                    },
                ],
            ),
    {
        data.connect_timer = true;
        let ghost before = self@;
        let notice = Notice::ConnectTimer { sid: socket.id(), after: self.config.connect_timeout };
        self.notices.push(notice);
        assert(self@.notices =~= before.notices + seq![notice@]);
        assert(self@.namespaces =~= before.namespaces);
    }

    /// The connect timer of a session ran out. If the session has not
    /// connected to a namespace since the timer started, it is closed
    /// with `TransportClose`. Returns whether it was.
    pub fn connect_timeout(socket: &mut Session, data: &mut SocketData) -> (expired: bool)
        requires
            old(socket)@.wf(),
        ensures
            final(socket)@.wf(),
            expired == old(data)@.connect_timer,
            final(data)@ == (SocketDataView { connect_timer: false, ..old(data)@ }),
            final(socket)@ == (if expired {
                old(socket)@.close(DisconnectReason::TransportClose)
            } else {
                old(socket)@
            }),
    {
        if data.connect_timer {
            data.connect_timer = false;
            socket.close(DisconnectReason::TransportClose);
            true
        } else {
            false
        }
    }

    /// Called when a session has opened. A version 4 peer is connected
    /// to the default namespace at once, as if it had sent a connect
    /// packet for `/`; see [`Self::routed`]. A version 5 peer gets the
    /// connect timer; see [`Self::spawn_connect_timeout_task`].
    pub fn on_connect(&mut self, socket: &mut Session, data: &mut SocketData)
        requires
            old(self).wf(),
            old(socket)@.wf(),
        ensures
            final(self).wf(),
            final(socket)@.wf(),
            final(socket)@.id == old(socket)@.id,
            final(self).callbacks() == old(self).callbacks(),
            final(data)@.partial == old(data)@.partial,
            match old(socket)@.protocol {
                EngineVersion::V3 => Self::routed(
                    *old(self),
                    *final(self),
                    old(socket)@,
                    final(socket)@,
                    old(data)@.connect_timer,
                    final(data)@.connect_timer,
                    PacketView { inner: PacketDataView::Connect(None), ns: root_ns() },
                ),
                EngineVersion::V4 => final(socket)@ == old(socket)@ && final(data)@.connect_timer
                    && final(self)@ == old(self)@.noting(
                    seq![
                        NoticeView::ConnectTimer {
                            sid: old(socket)@.id,
                            after: old(self).spec_config().connect_timeout,
                        },
                    ],
                ),
            },
    {
        match socket.protocol() {
            EngineVersion::V3 => {
                let root: Vec<u8> = vec![47u8];
                assert(root@ =~= root_ns());
                let packet = Packet { inner: PacketData::Connect(None), ns: root };
                self.route(packet, socket, data);
            },
            EngineVersion::V4 => {
                self.spawn_connect_timeout_task(socket, data);
            },
        }
    }

    /// Called when a session has ended for `reason`: its socket leaves
    /// every namespace, see [`ClientView::disconnected`], and what was
    /// kept for the session is dropped.
    pub fn on_disconnect(&mut self, socket: &Session, reason: DisconnectReason, data: &mut SocketData)
        requires
            old(self).wf(),
        ensures
            final(self).wf(),
            final(self).callbacks() == old(self).callbacks(),
            final(self)@ == old(self)@.disconnected(socket@.id, reason),
            final(data)@ == (SocketDataView { partial: None, connect_timer: false }),
    {
        self.leave_namespaces(socket.id(), reason);
        data.partial_bin_packet = None;
        data.connect_timer = false;
    }
}

impl<A: Adapter, C: Fn(Sid, Vec<u8>) -> Result<(), Vec<u8>>> Client<A, C> {
    /// What taking a frame does; the contract of [`Client::on_message`]
    /// and [`Client::on_binary`] as one relation.
    ///
    /// The frame is one step of the reassembly of [`crate::reassembly`]:
    /// a violation closes the session with `PacketParsingError`, a binary
    /// packet that still lacks attachments is kept, and a complete packet
    /// is handled; see [`Self::routed`].
    pub open spec fn frame_rel(
        pre: Self,
        post: Self,
        s0: SessionView,
        s1: SessionView,
        d0: SocketDataView,
        d1: SocketDataView,
        input: Input,
    ) -> bool {
        &&& post.callbacks() == pre.callbacks()
        &&& d1.partial == feed_state(d0.partial, input)
        &&& match feed_step(d0.partial, input) {
            Step::Violation(_) => s1 == s0.close(DisconnectReason::PacketParsingError) && post@
                == pre@ && d1.connect_timer == d0.connect_timer,
            Step::Hold => s1 == s0 && post@ == pre@ && d1.connect_timer == d0.connect_timer,
            Step::Forward(p) => Self::routed(
                pre,
                post,
                s0,
                s1,
                d0.connect_timer,
                d1.connect_timer,
                p,
            ),
        }
    }

    /// What the opening of a session does; the contract of
    /// [`Client::on_connect`] as one relation.
    pub open spec fn opened_rel(
        pre: Self,
        post: Self,
        s0: SessionView,
        s1: SessionView,
        d0: SocketDataView,
        d1: SocketDataView,
    ) -> bool {
        &&& post.callbacks() == pre.callbacks()
        &&& d1.partial == d0.partial
        &&& match s0.protocol {
            EngineVersion::V3 => Self::routed(
                pre,
                post,
                s0,
                s1,
                d0.connect_timer,
                d1.connect_timer,
                PacketView { inner: PacketDataView::Connect(None), ns: root_ns() },
            ),
            EngineVersion::V4 => s1 == s0 && d1.connect_timer && post@ == pre@.noting(
                seq![
                    NoticeView::ConnectTimer {
                        sid: s0.id,
                        after: pre.spec_config().connect_timeout,
                    },
                ],
            ),
        }
    }

    /// What the end of a session does; the contract of
    /// [`Client::on_disconnect`] as one relation.
    pub open spec fn ended_rel(
        pre: Self,
        post: Self,
        s: SessionView,
        reason: DisconnectReason,
        d1: SocketDataView,
    ) -> bool {
        &&& post.callbacks() == pre.callbacks()
        &&& post@ == pre@.disconnected(s.id, reason)
        &&& d1 == (SocketDataView { partial: None, connect_timer: false })
    }
}

/// The last attachment completes the very packet that was sent. Let the
/// frames of a well-formed binary packet `p` with at least one
/// attachment have been taken, all but the last, by a receiver that
/// waited for nothing. Then the last attachment, taken by
/// [`Client::on_binary`], has `p` itself handled: the packet that is
/// routed holds every attachment at its place.
pub proof fn law_on_binary_completes<A: Adapter, C: Fn(Sid, Vec<u8>) -> Result<(), Vec<u8>>>(
    pre: Client<A, C>,
    post: Client<A, C>,
    s0: SessionView,
    s1: SessionView,
    d0: SocketDataView,
    d1: SocketDataView,
    p: PacketView,
)
    requires
        p.wf(),
        p.is_complete(),
        p.inner.is_binary(),
        p.inner.binary().bin.len() > 0,
        d0.partial == run_state(wire_inputs(p).drop_last()),
        Client::frame_rel(pre, post, s0, s1, d0, d1, Input::Binary(p.inner.binary().bin.last())),
    ensures
        Client::routed(pre, post, s0, s1, d0.connect_timer, d1.connect_timer, p),
        d1.partial is None,
{
    let inputs = wire_inputs(p);
    law_wire_round_trip(p);
    assert(inputs.take(inputs.len() - 1) =~= inputs.drop_last());
    assert(inputs.last() == Input::Binary(p.inner.binary().bin.last()));
    assert(inputs.drop_last().push(inputs.last()) =~= inputs);
}

impl<A: Adapter, C: Fn(Sid, Vec<u8>) -> Result<(), Vec<u8>>> EngineIoHandler for Client<A, C> {
    type Data = SocketData;

    open spec fn inv(&self) -> bool {
        self.wf()
    }

    open spec fn data_inv(data: &SocketData) -> bool {
        data@.wf()
    }

    open spec fn connect_rel(
        pre: &Self,
        post: &Self,
        s0: SessionView,
        s1: SessionView,
        d0: &SocketData,
        d1: &SocketData,
    ) -> bool {
        Client::opened_rel(*pre, *post, s0, s1, d0@, d1@)
    }

    open spec fn disconnect_rel(
        pre: &Self,
        post: &Self,
        s: SessionView,
        reason: DisconnectReason,
        d0: &SocketData,
        d1: &SocketData,
    ) -> bool {
        Client::ended_rel(*pre, *post, s, reason, d1@)
    }

    open spec fn message_rel(
        pre: &Self,
        post: &Self,
        msg: Seq<u8>,
        s0: SessionView,
        s1: SessionView,
        d0: &SocketData,
        d1: &SocketData,
    ) -> bool {
        Client::frame_rel(*pre, *post, s0, s1, d0@, d1@, Input::Text(msg))
    }

    open spec fn binary_rel(
        pre: &Self,
        post: &Self,
        payload: Seq<u8>,
        s0: SessionView,
        s1: SessionView,
        d0: &SocketData,
        d1: &SocketData,
    ) -> bool {
        Client::frame_rel(*pre, *post, s0, s1, d0@, d1@, Input::Binary(payload))
    }

    /// What is kept for a session that just opened: no packet waits, no
    /// connect timer runs.
    fn fresh_data(&self) -> (data: SocketData)
        ensures
            data@ == (SocketDataView { partial: None, connect_timer: false }),
    {
        SocketData::default()
    }

    /// As [`Client::on_connect`]: [`Client::opened_rel`] holds.
    fn on_connect(&mut self, socket: &mut Session, data: &mut SocketData) {
        Client::on_connect(self, socket, data);
    }

    /// As [`Client::on_disconnect`]: [`Client::ended_rel`] holds.
    fn on_disconnect(&mut self, socket: &Session, reason: DisconnectReason, data: &mut SocketData) {
        Client::on_disconnect(self, socket, reason, data);
    }

    /// As [`Client::on_message`]: [`Client::frame_rel`] holds.
    fn on_message(&mut self, msg: Vec<u8>, socket: &mut Session, data: &mut SocketData) {
        Client::on_message(self, msg, socket, data);
    }

    /// As [`Client::on_binary`]: [`Client::frame_rel`] holds.
    fn on_binary(&mut self, payload: Vec<u8>, socket: &mut Session, data: &mut SocketData) {
        Client::on_binary(self, payload, socket, data);
    }
}

/// Handing out ack ids changes no path.
pub proof fn lemma_awaiting_all_path(ns: NamespaceView, targets: Seq<Sid>, from: int)
    ensures
        ns.awaiting_all(targets, from).path == ns.path,
    decreases targets.len() - from,
{
    if 0 <= from < targets.len() {
        let sid = targets[from];
        if ns.has_socket(sid) {
            lemma_awaiting_all_path(
                ns.with_socket(sid, ns.socket(sid).awaiting()),
                targets,
                from + 1,
            );
        } else {
            lemma_awaiting_all_path(ns, targets, from + 1);
        }
    }
}

/// Closing sockets changes no path.
pub proof fn lemma_without_all_path(ns: NamespaceView, targets: Seq<Sid>, from: int)
    ensures
        ns.without_all(targets, from).path == ns.path,
    decreases targets.len() - from,
{
    if 0 <= from < targets.len() {
        lemma_without_all_path(ns.without(targets[from]), targets, from + 1);
    }
}

/// Hands `packet` to the session as a message; see [`sent`].
pub fn send_packet(socket: &mut Session, packet: &Packet) -> (r: Result<(), Error>)
    requires
        old(socket)@.wf(),
    ensures
        final(socket)@.wf(),
        final(socket)@ == sent(old(socket)@, packet@),
        r == sent_result(packet@),
{
    match packet.encode() {
        Ok(bytes) => {
            let _ = socket.emit(bytes);
            Ok(())
        },
        Err(e) => Err(e),
    }
}

/// Closes the session if `r` is an error that has a close reason; see
/// [`closed_on`].
pub fn close_on_error(socket: &mut Session, r: Result<(), Error>)
    requires
        old(socket)@.wf(),
    ensures
        final(socket)@.wf(),
        final(socket)@ == closed_on(old(socket)@, r),
{
    match r {
        Err(err) => match err.disconnect_reason() {
            Some(reason) => socket.close(reason),
            None => {},
        },
        Ok(_) => {},
    }
}

} // verus!
