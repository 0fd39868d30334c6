//! The session registry and the routing of requests to sessions.

use crate::config::EngineIoConfig;
use crate::config::TransportType;
use crate::request::allows;
use crate::request::key_eio;
use crate::request::key_sid;
use crate::request::key_transport;
use crate::request::param;
use crate::request::parse_query;
use crate::request::parse_transport;
use crate::request::parse_version;
use crate::request::transport_of;
use crate::request::version_of;
use crate::request::Method;
use crate::request::RequestError;
use crate::request::Route;
use crate::search::lemma_position;
use crate::search::lemma_position_contains;
use crate::search::lemma_position_push;
use crate::search::lemma_position_unique;
use crate::search::lemma_remove_absent;
use crate::search::lemma_push_contains;
use crate::search::lemma_push_no_duplicates;
use crate::search::lemma_take_step;
use crate::search::position;
use crate::session::Session;
use crate::session::SessionView;
use crate::sid::Sid;
use vstd::prelude::*;

verus! {

/// A session and what the handler keeps for it.
pub struct Entry<D> {
    pub session: Session,
    pub data: D,
}

/// The sessions of a server, by session id.
pub struct Registry<D> {
    config: EngineIoConfig,
    entries: Vec<Entry<D>>,
}

/// The state of a registry: its sessions in the order of their creation.
pub struct RegistryView {
    pub sessions: Seq<SessionView>,
}

impl RegistryView {
    /// The ids of the sessions, in order.
    pub open spec fn ids(self) -> Seq<Sid> {
        Seq::new(self.sessions.len(), |i: int| self.sessions[i].id)
    }

    /// No id names two sessions, and every session is in order.
    pub open spec fn wf(self) -> bool {
        &&& self.ids().no_duplicates()
        &&& forall|i: int| 0 <= i < self.sessions.len() ==> (#[trigger] self.sessions[i]).wf()
    }

    /// Where the session `sid` stands; the number of sessions when there
    /// is none.
    pub open spec fn index_of(self, sid: Sid) -> int {
        position(self.ids(), sid, 0)
    }

    /// Whether there is a session `sid`.
    pub open spec fn contains(self, sid: Sid) -> bool {
        self.index_of(sid) < self.sessions.len()
    }

    /// The session `sid`.
    pub open spec fn session(self, sid: Sid) -> SessionView {
        self.sessions[self.index_of(sid)]
    }

    /// The registry with one more session; a session whose id is taken
    /// is not added.
    pub open spec fn inserted(self, s: SessionView) -> RegistryView {
        if self.contains(s.id) {
            self
        } else {
            RegistryView { sessions: self.sessions.push(s) }
        }
    }

    /// The registry without the session `sid`.
    pub open spec fn removed(self, sid: Sid) -> RegistryView {
        if self.contains(sid) {
            RegistryView { sessions: self.sessions.remove(self.index_of(sid)) }
        } else {
            self
        }
    }

    /// Where a request goes.
    ///
    /// `EIO` must name a supported version and `transport` a transport
    /// that is switched on; otherwise the request fails with
    /// `UnknownTransport`. Without a `sid` the request is a handshake,
    /// which must be a GET. With a `sid` it belongs to the session of
    /// that id, which must exist (`UnknownSid`) and speak the version
    /// that the request names (`BadRequest`): on the session's own
    /// transport it is an ordinary request; a WebSocket for a polling
    /// session is an upgrade; polling for a WebSocket session is a
    /// `BadRequest`.
    pub open spec fn route(
        self,
        config: EngineIoConfig,
        method: Method,
        query: Seq<u8>,
    ) -> Result<Route, RequestError> {
        let version = version_of(param(query, key_eio()));
        let transport = transport_of(param(query, key_transport()));
        if version is None || transport is None || !allows(config, transport->0) {
            Err(RequestError::UnknownTransport)
        } else {
            match param(query, key_sid()) {
                None => if method is Get {
                    Ok(Route::Handshake(version->0, transport->0))
                } else {
                    Err(RequestError::BadHandshakeMethod)
                },
                Some(text) => match Sid::named(text) {
                    None => Err(RequestError::UnknownSid),
                    Some(sid) => if !self.contains(sid) {
                        Err(RequestError::UnknownSid)
                    } else if self.session(sid).protocol != version->0 {
                        Err(RequestError::BadRequest)
                    } else if self.session(sid).transport == transport->0 {
                        Ok(Route::Session(sid))
                    } else if transport->0 is Websocket {
                        Ok(Route::Upgrade(sid))
                    } else {
                        Err(RequestError::BadRequest)
                    },
                },
            }
        }
    }
}

/// No session of `r` is closed.
pub open spec fn none_closed(r: RegistryView) -> bool {
    forall|i: int| 0 <= i < r.sessions.len() ==> !(#[trigger] r.sessions[i]).is_closed()
}

/// Every session of `now` was a session of `before`, in the same state.
pub open spec fn kept_from(now: RegistryView, before: RegistryView) -> bool {
    forall|sid: Sid| #[trigger]
        now.contains(sid) ==> before.contains(sid) && now.session(sid) == before.session(sid)
}

/// `s` is closed and its id named a session of `r`.
pub open spec fn was_closed_in(r: RegistryView, s: SessionView) -> bool {
    s.is_closed() && r.contains(s.id)
}

/// Taking one session out leaves every other session where it was found
/// before, in the state it had.
pub proof fn lemma_removed_other(r: RegistryView, gone: Sid, sid: Sid)
    requires
        r.wf(),
        sid != gone,
    ensures
        r.removed(gone).wf(),
        r.removed(gone).contains(sid) == r.contains(sid),
        r.contains(sid) ==> r.removed(gone).session(sid) == r.session(sid),
        !r.removed(gone).contains(gone),
{
    let ids = r.ids();
    lemma_position_contains(ids, gone);
    lemma_position_contains(ids, sid);
    lemma_position(ids, sid, 0);
    lemma_position(ids, gone, 0);
    if r.contains(gone) {
        let g = r.index_of(gone);
        let t = r.removed(gone);
        assert(t.ids() =~= ids.remove(g));
        lemma_remove_absent(ids, g);
        lemma_position_contains(t.ids(), gone);
        lemma_position_contains(t.ids(), sid);
        lemma_position(t.ids(), sid, 0);
        assert forall|i: int| 0 <= i < t.sessions.len() implies (#[trigger] t.sessions[i]).wf() by {
            if i < g {
                assert(t.sessions[i] == r.sessions[i]);
            } else {
                assert(t.sessions[i] == r.sessions[i + 1]);
            }
        }
        if r.contains(sid) {
            let k = r.index_of(sid);
            let kk = if k < g {
                k
            } else {
                k - 1
            };
            assert(t.ids()[kk] == sid);
            lemma_position_unique(t.ids(), kk);
        } else {
            if t.contains(sid) {
                let kk = t.index_of(sid);
                let k = if kk < g {
                    kk
                } else {
                    kk + 1
                };
                assert(ids[k] == sid);
            }
        }
    }
}

impl<D> View for Registry<D> {
    type V = RegistryView;

    closed spec fn view(&self) -> RegistryView {
        RegistryView { sessions: Seq::new(self.entries@.len(), |i: int| self.entries@[i].session@) }
    }
}

impl<D> Registry<D> {
    /// The configuration.
    pub closed spec fn spec_config(&self) -> EngineIoConfig {
        self.config
    }

    /// What the handler keeps for the sessions, in order.
    pub closed spec fn data(&self) -> Seq<D> {
        Seq::new(self.entries@.len(), |i: int| self.entries@[i].data)
    }

    /// What the handler keeps for the session `sid`.
    pub open spec fn data_of(&self, sid: Sid) -> D {
        self.data()[self@.index_of(sid)]
    }

    /// There is data for every session.
    pub proof fn lemma_data_len(&self)
        ensures
            self.data().len() == self@.sessions.len(),
    {
    }

    /// A registry without sessions.
    pub fn new(config: EngineIoConfig) -> (registry: Self)
        ensures
            registry@.wf(),
            registry@.sessions.len() == 0,
            registry.data().len() == 0,
            registry.spec_config() == config,
    {
        let registry = Registry { config, entries: Vec::new() };
        assert(registry@.ids() =~= Seq::empty());
        registry
    }

    /// The configuration.
    pub fn config(&self) -> (config: &EngineIoConfig)
        ensures
            *config == self.spec_config(),
    {
        &self.config
    }

    /// Number of sessions.
    pub fn len(&self) -> (n: usize)
        ensures
            n == self@.sessions.len(),
    {
        self.entries.len()
    }

    fn find(&self, sid: Sid) -> (i: usize)
        ensures
            i == self@.index_of(sid),
            i <= self.entries@.len(),
            self.entries@.len() == self@.sessions.len(),
            i < self.entries@.len() ==> self@.sessions[i as int].id == sid,
    {
        let ghost ids = self@.ids();
        let mut i: usize = 0;
        while i < self.entries.len() && self.entries[i].session.id() != sid
            invariant
                i <= self.entries.len(),
                ids == self@.ids(),
                ids.len() == self.entries@.len(),
                position(ids, sid, 0) == position(ids, sid, i as int),
            decreases self.entries.len() - i,
        {
            i += 1;
        }
        proof {
            lemma_position(ids, sid, 0);
        }
        i
    }

    /// Whether there is a session `sid`.
    pub fn contains(&self, sid: Sid) -> (has: bool)
        ensures
            has == self@.contains(sid),
    {
        self.find(sid) < self.entries.len()
    }

    /// The session `sid` and its data, if there is one.
    pub fn get(&self, sid: Sid) -> (entry: Option<&Entry<D>>)
        ensures
            entry is Some <==> self@.contains(sid),
            entry matches Some(e) ==> e.session@ == self@.session(sid),
            entry matches Some(e) ==> e.data == self.data()[self@.index_of(sid)],
    {
        let i = self.find(sid);
        if i < self.entries.len() {
            Some(&self.entries[i])
        } else {
            None
        }
    }

    /// Decides where a request goes; see [`RegistryView::route`].
    pub fn route(&self, method: Method, query: &[u8]) -> (r: Result<Route, RequestError>)
        ensures
            r == self@.route(self.spec_config(), method, query@),
    {
        let params = parse_query(query);
        let version = match parse_version(&params.eio) {
            Some(version) => version,
            None => {
                return Err(RequestError::UnknownTransport);
            },
        };
        let transport = match parse_transport(&params.transport) {
            Some(transport) => transport,
            None => {
                return Err(RequestError::UnknownTransport);
            },
        };
        if !self.config.allows(transport) {
            return Err(RequestError::UnknownTransport);
        }
        let text = match params.sid {
            Some(text) => text,
            None => {
                return match method {
                    Method::Get => Ok(Route::Handshake(version, transport)),
                    Method::Post => Err(RequestError::BadHandshakeMethod),
                };
            },
        };
        let sid = match Sid::parse(text.as_slice()) {
            Some(sid) => sid,
            None => {
                return Err(RequestError::UnknownSid);
            },
        };
        let i = self.find(sid);
        if i >= self.entries.len() {
            return Err(RequestError::UnknownSid);
        }
        let session = &self.entries[i].session;
        if session.protocol() != version {
            return Err(RequestError::BadRequest);
        }
        if session.transport() == transport {
            return Ok(Route::Session(sid));
        }
        match transport {
            TransportType::Websocket => Ok(Route::Upgrade(sid)),
            TransportType::Polling => Err(RequestError::BadRequest),
        }
    }

    /// Adds a session with its data. A session whose id is taken is
    /// handed back.
    pub fn insert(&mut self, entry: Entry<D>) -> (refused: Option<Entry<D>>)
        requires
            old(self)@.wf(),
            entry.session@.wf(),
        ensures
            final(self)@.wf(),
            final(self).spec_config() == old(self).spec_config(),
            final(self)@ == old(self)@.inserted(entry.session@),
            match refused {
                Some(e) => old(self)@.contains(entry.session@.id) && e == entry
                    && final(self).data() == old(self).data(),
                None => !old(self)@.contains(entry.session@.id)
                    && final(self).data() == old(self).data().push(entry.data)
                    && final(self)@.session(entry.session@.id) == entry.session@
                    && final(self).data_of(entry.session@.id) == entry.data,
            },
    {
        let sid = entry.session.id();
        let i = self.find(sid);
        if i < self.entries.len() {
            return Some(entry);
        }
        let ghost ids = self@.ids();
        proof {
            lemma_position_contains(ids, sid);
        }
        self.entries.push(entry);
        proof {
            assert(self@.sessions =~= old(self)@.sessions.push(entry.session@));
            assert(self@.ids() =~= ids.push(sid));
            lemma_push_no_duplicates(ids, sid);
            assert(self.data() =~= old(self).data().push(entry.data));
            lemma_position_push(ids, sid, sid);
        }
        None
    }

    /// Takes the session `sid` and its data out of the registry.
    pub fn take(&mut self, sid: Sid) -> (entry: Option<Entry<D>>)
        requires
            old(self)@.wf(),
        ensures
            final(self)@.wf(),
            final(self).spec_config() == old(self).spec_config(),
            final(self)@ == old(self)@.removed(sid),
            !final(self)@.contains(sid),
            match entry {
                Some(e) => old(self)@.contains(sid) && e.session@ == old(self)@.session(sid)
                    && e.session@.wf() && e.data == old(self).data_of(sid)
                    && final(self).data() == old(self).data().remove(old(self)@.index_of(sid)),
                None => !old(self)@.contains(sid) && final(self).data() == old(self).data(),
            },
    {
        let i = self.find(sid);
        let ghost ids = self@.ids();
        proof {
            lemma_position_contains(ids, sid);
        }
        if i >= self.entries.len() {
            return None;
        }
        let entry = self.entries.remove(i);
        proof {
            assert(self@.sessions =~= old(self)@.sessions.remove(i as int));
            assert(self@.ids() =~= ids.remove(i as int));
            lemma_remove_absent(ids, i as int);
            lemma_position_contains(self@.ids(), sid);
            assert(self.data() =~= old(self).data().remove(i as int));
            assert(old(self)@.sessions[i as int].wf());
        }
        Some(entry)
    }

    /// Removes the sessions that are closed and returns them with their
    /// data. Every other session stays as it is.
    pub fn sweep(&mut self) -> (gone: Vec<Entry<D>>)
        requires
            old(self)@.wf(),
        ensures
            final(self)@.wf(),
            final(self).spec_config() == old(self).spec_config(),
            none_closed(final(self)@),
            forall|sid: Sid|
                old(self)@.contains(sid) && !old(self)@.session(sid).is_closed()
                    ==> #[trigger] final(self)@.contains(sid),
            kept_from(final(self)@, old(self)@),
            forall|k: int|
                0 <= k < gone@.len() ==> was_closed_in(old(self)@, (#[trigger] gone@[k]).session@),
    {
        let closed = self.closed_sessions();
        let ghost start = self@;
        let mut gone: Vec<Entry<D>> = Vec::new();
        let mut k: usize = 0;
        assert(closed@.take(0) =~= Seq::empty());
        while k < closed.len()
            invariant
                k <= closed.len(),
                self@.wf(),
                start == old(self)@,
                start.wf(),
                self.spec_config() == old(self).spec_config(),
                forall|j: int|
                    0 <= j < closed@.len() ==> start.contains(#[trigger] closed@[j])
                        && start.session(closed@[j]).is_closed(),
                kept_from(self@, start),
                forall|sid: Sid|
                    start.contains(sid) && !closed@.take(k as int).contains(sid)
                        ==> #[trigger] self@.contains(sid),
                forall|j: int| 0 <= j < k ==> !self@.contains(#[trigger] closed@[j]),
                forall|j: int|
                    0 <= j < gone@.len() ==> was_closed_in(start, (#[trigger] gone@[j]).session@),
            decreases closed.len() - k,
        {
            let ghost here = self@;
            let ghost before = gone@;
            let sid = closed[k];
            let taken = self.take(sid);
            proof {
                lemma_take_step(closed@, k as int);
                assert forall|x: Sid| #[trigger] self@.contains(x) implies start.contains(x)
                    && self@.session(x) == start.session(x) by {
                    if x != sid {
                        lemma_removed_other(here, sid, x);
                    }
                }
                assert forall|x: Sid|
                    start.contains(x) && !closed@.take(k + 1).contains(
                        x,
                    ) implies #[trigger] self@.contains(x) by {
                    assert(x != sid);
                    assert(!closed@.take(k as int).contains(x));
                    assert(here.contains(x));
                    lemma_removed_other(here, sid, x);
                }
                assert forall|j: int| 0 <= j < k + 1 implies !self@.contains(
                    #[trigger] closed@[j],
                ) by {
                    if closed@[j] != sid {
                        lemma_removed_other(here, sid, closed@[j]);
                    }
                }
            }
            match taken {
                Some(entry) => {
                    gone.push(entry);
                    assert forall|j: int| 0 <= j < gone@.len() implies was_closed_in(
                        start,
                        (#[trigger] gone@[j]).session@,
                    ) by {
                        if j < before.len() {
                            assert(gone@[j] == before[j]);
                        } else {
                            lemma_position(here.ids(), sid, 0);
                            assert(here.ids()[here.index_of(sid)] == sid);
                            assert(here.session(sid) == start.session(sid));
                        }
                    }
                },
                None => {},
            }
            k += 1;
        }
        proof {
            assert forall|i: int| 0 <= i < self@.sessions.len() implies !(
            #[trigger] self@.sessions[i]).is_closed() by {
                let sid = self@.sessions[i].id;
                assert(self@.ids()[i] == sid);
                lemma_position_unique(self@.ids(), i);
                assert(self@.contains(sid));
                assert(self@.session(sid) == self@.sessions[i]);
                if self@.sessions[i].is_closed() {
                    let j = start.index_of(sid);
                    lemma_position(start.ids(), sid, 0);
                    assert(start.ids()[j] == sid);
                    assert(start.sessions[j].is_closed());
                    assert(closed@.contains(start.sessions[j].id));
                    let c = choose|c: int| 0 <= c < closed@.len() && closed@[c] == sid;
                    assert(!self@.contains(closed@[c]));
                }
            }
            assert(closed@.take(closed@.len() as int) =~= closed@);
            assert forall|sid: Sid|
                start.contains(sid) && !start.session(
                    sid,
                ).is_closed() implies #[trigger] self@.contains(sid) by {
                if closed@.contains(sid) {
                    let c = choose|c: int| 0 <= c < closed@.len() && closed@[c] == sid;
                    assert(start.session(closed@[c]).is_closed());
                }
            }
        }
        gone
    }

    /// The sessions that are closed.
    fn closed_sessions(&self) -> (out: Vec<Sid>)
        requires
            self@.wf(),
        ensures
            forall|k: int| 0 <= k < out@.len() ==> self@.contains(#[trigger] out@[k]) && self@.session(
                out@[k],
            ).is_closed(),
            forall|i: int|
                0 <= i < self@.sessions.len() && (#[trigger] self@.sessions[i]).is_closed()
                    ==> out@.contains(self@.sessions[i].id),
    {
        let ghost ids = self@.ids();
        let mut out: Vec<Sid> = Vec::new();
        let mut i: usize = 0;
        while i < self.entries.len()
            invariant
                i <= self.entries.len(),
                self@.wf(),
                ids == self@.ids(),
                self.entries@.len() == self@.sessions.len(),
                forall|k: int| 0 <= k < out@.len() ==> self@.contains(#[trigger] out@[k])
                    && self@.session(out@[k]).is_closed(),
                forall|j: int|
                    0 <= j < i && (#[trigger] self@.sessions[j]).is_closed() ==> out@.contains(
                        self@.sessions[j].id,
                    ),
            decreases self.entries.len() - i,
        {
            if self.entries[i].session.is_closed() {
                let sid = self.entries[i].session.id();
                let ghost before = out@;
                out.push(sid);
                proof {
                    assert(ids[i as int] == sid);
                    lemma_position_unique(ids, i as int);
                    lemma_push_contains(before, sid);
                }
            }
            i += 1;
        }
        out
    }
}

} // verus!
