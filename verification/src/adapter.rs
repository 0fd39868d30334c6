//! Rooms. An adapter keeps which socket is in which room of a namespace;
//! it is the seam at which a deployment over several processes would
//! put its own bookkeeping. [`LocalAdapter`] is the one for a single
//! process.

use crate::sid::Sid;
use crate::text::bytes_eq;
use crate::search::lemma_fresh;
use crate::search::lemma_push_contains;
use crate::search::lemma_push_no_duplicates;
use crate::search::lemma_take_step;
use crate::text::copy_range;
use vstd::prelude::*;

verus! {

/// Room membership as a relation: the pair `(room, sid)` is in it when
/// the socket of `sid` is in `room`.
pub type Members = Set<(Seq<u8>, Sid)>;

/// The contents of a list of room names.
pub open spec fn rooms_view(rooms: Seq<Vec<u8>>) -> Seq<Seq<u8>> {
    Seq::new(rooms.len(), |i: int| rooms[i]@)
}

/// Membership of `sid` in each of `rooms`.
pub open spec fn memberships(rooms: Seq<Seq<u8>>, sid: Sid) -> Members {
    Set::new(|p: (Seq<u8>, Sid)| rooms.contains(p.0) && p.1 == sid)
}

/// All memberships of `sid`.
pub open spec fn memberships_of(sid: Sid) -> Members {
    Set::new(|p: (Seq<u8>, Sid)| p.1 == sid)
}

/// `sid` is in one of `rooms`.
pub open spec fn in_any(members: Members, rooms: Seq<Seq<u8>>, sid: Sid) -> bool {
    exists|i: int| 0 <= i < rooms.len() && members.contains((#[trigger] rooms[i], sid))
}

/// Whom a broadcast is for.
#[derive(Clone, Debug, PartialEq, Eq)]
pub struct BroadcastOptions {
    /// The rooms to reach. With none, the whole namespace is meant.
    pub rooms: Vec<Vec<u8>>,
    /// Sockets in these rooms are left out.
    pub except: Vec<Vec<u8>>,
    /// This socket is left out: the one that broadcasts.
    pub skip: Option<Sid>,
    /// Only sockets of this process are meant.
    pub local: bool,
    /// How long to wait for acknowledgements, in milliseconds.
    pub timeout: Option<u64>,
}

/// The contents of [`BroadcastOptions`].
pub struct BroadcastOptionsView {
    pub rooms: Seq<Seq<u8>>,
    pub except: Seq<Seq<u8>>,
    pub skip: Option<Sid>,
    pub local: bool,
    pub timeout: Option<u64>,
}

impl View for BroadcastOptions {
    type V = BroadcastOptionsView;

    open spec fn view(&self) -> BroadcastOptionsView {
        BroadcastOptionsView {
            rooms: rooms_view(self.rooms@),
            except: rooms_view(self.except@),
            skip: self.skip,
            local: self.local,
            timeout: self.timeout,
        }
    }
}

impl BroadcastOptionsView {
    /// Whether the socket of `sid` is meant: it is in one of the target
    /// rooms, or there are none; it is in none of the excluded rooms; and
    /// it is not the socket to skip.
    pub open spec fn targets(self, members: Members, sid: Sid) -> bool {
        &&& self.rooms.len() == 0 || in_any(members, self.rooms, sid)
        &&& !in_any(members, self.except, sid)
        &&& self.skip != Some(sid)
    }
}

/// The bookkeeping of rooms.
pub trait Adapter: Sized {
    /// Who is in which room. An adapter that does not say stands for
    /// some membership that nothing is known of.
    open spec fn members(&self) -> Members {
        arbitrary()
    }

    /// What must hold of the adapter between calls; nothing, unless an
    /// adapter says otherwise.
    open spec fn inv(&self) -> bool {
        true
    }

    /// An adapter with empty rooms.
    fn new() -> (adapter: Self)
        ensures
            adapter.inv(),
            adapter.members() == Set::<(Seq<u8>, Sid)>::empty(),
    ;

    /// Puts the socket of `sid` in each of `rooms`.
    fn add_all(&mut self, sid: Sid, rooms: &Vec<Vec<u8>>)
        requires
            old(self).inv(),
        ensures
            final(self).inv(),
            final(self).members() == old(self).members().union(
                memberships(rooms_view(rooms@), sid),
            ),
    ;

    /// Takes the socket of `sid` out of each of `rooms`.
    fn del(&mut self, sid: Sid, rooms: &Vec<Vec<u8>>)
        requires
            old(self).inv(),
        ensures
            final(self).inv(),
            final(self).members() == old(self).members().difference(
                memberships(rooms_view(rooms@), sid),
            ),
    ;

    /// Takes the socket of `sid` out of every room.
    fn del_all(&mut self, sid: Sid)
        requires
            old(self).inv(),
        ensures
            final(self).inv(),
            final(self).members() == old(self).members().difference(memberships_of(sid)),
    ;

    /// Whether the socket of `sid` is in `room`.
    fn is_member(&self, room: &[u8], sid: Sid) -> (yes: bool)
        requires
            self.inv(),
        ensures
            yes == self.members().contains((room@, sid)),
    ;
}

/// Whether the socket of `sid` is in one of `rooms`.
pub fn in_any_room<A: Adapter>(adapter: &A, rooms: &Vec<Vec<u8>>, sid: Sid) -> (yes: bool)
    requires
        adapter.inv(),
    ensures
        yes == in_any(adapter.members(), rooms_view(rooms@), sid),
{
    let ghost names = rooms_view(rooms@);
    let mut i: usize = 0;
    while i < rooms.len()
        invariant
            i <= rooms.len(),
            adapter.inv(),
            names == rooms_view(rooms@),
            forall|k: int| 0 <= k < i ==> !adapter.members().contains((#[trigger] names[k], sid)),
        decreases rooms.len() - i,
    {
        if adapter.is_member(rooms[i].as_slice(), sid) {
            assert(adapter.members().contains((names[i as int], sid)));
            return true;
        }
        i += 1;
    }
    false
}

/// Whether a broadcast with `opts` is meant for the socket of `sid`.
pub fn is_target<A: Adapter>(adapter: &A, opts: &BroadcastOptions, sid: Sid) -> (yes: bool)
    requires
        adapter.inv(),
    ensures
        yes == opts@.targets(adapter.members(), sid),
{
    match opts.skip {
        Some(skipped) => {
            if skipped == sid {
                return false;
            }
        },
        None => {},
    }
    if opts.rooms.len() > 0 && !in_any_room(adapter, &opts.rooms, sid) {
        return false;
    }
    !in_any_room(adapter, &opts.except, sid)
}

/// A membership as the local adapter stores it.
struct Entry {
    room: Vec<u8>,
    sid: Sid,
}

/// The adapter of a single process: a list of memberships in which no
/// membership stands twice.
pub struct LocalAdapter {
    entries: Vec<Entry>,
}

spec fn entry_pairs(entries: Seq<Entry>) -> Seq<(Seq<u8>, Sid)> {
    Seq::new(entries.len(), |i: int| (entries[i].room@, entries[i].sid))
}

fn room_listed(rooms: &Vec<Vec<u8>>, room: &[u8]) -> (yes: bool)
    ensures
        yes == rooms_view(rooms@).contains(room@),
{
    let ghost names = rooms_view(rooms@);
    let mut i: usize = 0;
    while i < rooms.len()
        invariant
            i <= rooms.len(),
            names == rooms_view(rooms@),
            forall|k: int| 0 <= k < i ==> names[k] != room@,
        decreases rooms.len() - i,
    {
        if bytes_eq(rooms[i].as_slice(), room) {
            assert(names[i as int] == room@);
            return true;
        }
        i += 1;
    }
    false
}

impl LocalAdapter {
    closed spec fn pairs(&self) -> Seq<(Seq<u8>, Sid)> {
        entry_pairs(self.entries@)
    }

    /// Number of memberships.
    pub fn len(&self) -> (n: usize)
        requires
            self.inv(),
        ensures
            n == self.members().len(),
            self.members().finite(),
    {
        proof {
            self.pairs().unique_seq_to_set();
        }
        self.entries.len()
    }
}

impl Adapter for LocalAdapter {
    closed spec fn members(&self) -> Members {
        self.pairs().to_set()
    }

    closed spec fn inv(&self) -> bool {
        self.pairs().no_duplicates()
    }

    fn new() -> (adapter: Self) {
        let adapter = LocalAdapter { entries: Vec::new() };
        assert(adapter.pairs() =~= Seq::empty());
        assert(adapter.members() =~= Set::<(Seq<u8>, Sid)>::empty());
        adapter
    }

    fn is_member(&self, room: &[u8], sid: Sid) -> (yes: bool) {
        let ghost pairs = self.pairs();
        let mut i: usize = 0;
        while i < self.entries.len()
            invariant
                i <= self.entries.len(),
                pairs == self.pairs(),
                forall|k: int| 0 <= k < i ==> pairs[k] != (room@, sid),
            decreases self.entries.len() - i,
        {
            if self.entries[i].sid == sid && bytes_eq(self.entries[i].room.as_slice(), room) {
                assert(pairs[i as int] == (room@, sid));
                return true;
            }
            i += 1;
        }
        false
    }

    fn add_all(&mut self, sid: Sid, rooms: &Vec<Vec<u8>>) {
        let ghost names = rooms_view(rooms@);
        let ghost start = self.pairs();
        let mut i: usize = 0;
        while i < rooms.len()
            invariant
                i <= rooms.len(),
                self.inv(),
                names == rooms_view(rooms@),
                forall|p: (Seq<u8>, Sid)|
                    #[trigger] self.pairs().contains(p) <==> (start.contains(p) || (names.take(
                        i as int,
                    ).contains(p.0) && p.1 == sid)),
            decreases rooms.len() - i,
        {
            let ghost before = self.pairs();
            let ghost q = (names[i as int], sid);
            let listed = self.is_member(rooms[i].as_slice(), sid);
            if !listed {
                let room = copy_range(rooms[i].as_slice(), 0, rooms[i].len());
                assert(rooms[i as int]@.subrange(0, rooms[i as int]@.len() as int)
                    == rooms[i as int]@);
                self.entries.push(Entry { room, sid });
                assert(self.pairs() =~= before.push(q));
            }
            proof {
                assert(listed == before.contains(q));
                lemma_take_step(names, i as int);
                lemma_push_contains(before, q);
                if !listed {
                    lemma_push_no_duplicates(before, q);
                }
                assert forall|p: (Seq<u8>, Sid)|
                    #[trigger] self.pairs().contains(p) <==> (start.contains(p) || (names.take(
                        i + 1,
                    ).contains(p.0) && p.1 == sid)) by {
                    assert(p == q <==> (p.0 == names[i as int] && p.1 == sid));
                    assert(self.pairs().contains(p) <==> (before.contains(p) || p == q));
                    assert(before.contains(p) <==> (start.contains(p) || (names.take(
                        i as int,
                    ).contains(p.0) && p.1 == sid)));
                    assert(names.take(i + 1).contains(p.0) <==> (names.take(i as int).contains(
                        p.0,
                    ) || p.0 == names[i as int]));
                }
            }
            i += 1;
        }
        proof {
            assert(names.take(rooms.len() as int) =~= names);
            assert forall|p: (Seq<u8>, Sid)|
                self.members().contains(p) <==> old(self).members().union(
                    memberships(names, sid),
                ).contains(p) by {
                assert(self.pairs().contains(p) <==> (start.contains(p) || (names.contains(p.0)
                    && p.1 == sid)));
            }
            assert(self.members() =~= old(self).members().union(memberships(names, sid)));
        }
    }

    fn del(&mut self, sid: Sid, rooms: &Vec<Vec<u8>>) {
        let ghost names = rooms_view(rooms@);
        let ghost all = self.pairs();
        let mut kept: Vec<Entry> = Vec::new();
        let mut source: Vec<Entry> = Vec::new();
        std::mem::swap(&mut source, &mut self.entries);
        let mut i: usize = 0;
        assert(entry_pairs(kept@) =~= Seq::empty());
        assert(all.take(0) =~= Seq::empty());
        while i < source.len()
            invariant
                i <= source.len(),
                all == entry_pairs(source@),
                all.no_duplicates(),
                names == rooms_view(rooms@),
                entry_pairs(kept@).no_duplicates(),
                forall|p: (Seq<u8>, Sid)|
                    entry_pairs(kept@).contains(p) <==> (all.take(i as int).contains(p) && !(
                    names.contains(p.0) && p.1 == sid)),
            decreases source.len() - i,
        {
            let ghost before = entry_pairs(kept@);
            let ghost q = all[i as int];
            let gone = source[i].sid == sid && room_listed(rooms, source[i].room.as_slice());
            if !gone {
                let room = copy_range(source[i].room.as_slice(), 0, source[i].room.len());
                assert(source[i as int].room@.subrange(0, source[i as int].room@.len() as int)
                    == source[i as int].room@);
                kept.push(Entry { room, sid: source[i].sid });
                assert(entry_pairs(kept@) =~= before.push(q));
            }
            proof {
                assert(gone == (names.contains(q.0) && q.1 == sid));
                lemma_take_step(all, i as int);
                lemma_push_contains(before, q);
                lemma_fresh(all, i as int);
                assert(!before.contains(q));
                if !gone {
                    lemma_push_no_duplicates(before, q);
                }
                assert forall|p: (Seq<u8>, Sid)|
                    entry_pairs(kept@).contains(p) <==> (all.take(i + 1).contains(p) && !(
                    names.contains(p.0) && p.1 == sid)) by {
                    assert(all.take(i + 1).contains(p) <==> (all.take(i as int).contains(p) || p
                        == q));
                    if gone {
                        assert(entry_pairs(kept@) == before);
                    } else {
                        assert(entry_pairs(kept@).contains(p) <==> (before.contains(p) || p == q));
                    }
                }
            }
            i += 1;
        }
        self.entries = kept;
        proof {
            assert(all.take(source.len() as int) =~= all);
            assert(self.members() =~= all.to_set().difference(memberships(names, sid)));
        }
    }

    fn del_all(&mut self, sid: Sid) {
        let ghost all = self.pairs();
        let mut kept: Vec<Entry> = Vec::new();
        let mut source: Vec<Entry> = Vec::new();
        std::mem::swap(&mut source, &mut self.entries);
        let mut i: usize = 0;
        assert(entry_pairs(kept@) =~= Seq::empty());
        assert(all.take(0) =~= Seq::empty());
        while i < source.len()
            invariant
                i <= source.len(),
                all == entry_pairs(source@),
                all.no_duplicates(),
                entry_pairs(kept@).no_duplicates(),
                forall|p: (Seq<u8>, Sid)|
                    entry_pairs(kept@).contains(p) <==> (all.take(i as int).contains(p) && p.1
                        != sid),
            decreases source.len() - i,
        {
            let ghost before = entry_pairs(kept@);
            let ghost q = all[i as int];
            let gone = source[i].sid == sid;
            if !gone {
                let room = copy_range(source[i].room.as_slice(), 0, source[i].room.len());
                assert(source[i as int].room@.subrange(0, source[i as int].room@.len() as int)
                    == source[i as int].room@);
                kept.push(Entry { room, sid: source[i].sid });
                assert(entry_pairs(kept@) =~= before.push(q));
            }
            proof {
                lemma_take_step(all, i as int);
                lemma_push_contains(before, q);
                lemma_fresh(all, i as int);
                assert(!before.contains(q));
                if !gone {
                    lemma_push_no_duplicates(before, q);
                }
                assert forall|p: (Seq<u8>, Sid)|
                    entry_pairs(kept@).contains(p) <==> (all.take(i + 1).contains(p) && p.1
                        != sid) by {
                    assert(all.take(i + 1).contains(p) <==> (all.take(i as int).contains(p) || p
                        == q));
                    if gone {
                        assert(entry_pairs(kept@) == before);
                    } else {
                        assert(entry_pairs(kept@).contains(p) <==> (before.contains(p) || p == q));
                    }
                }
            }
            i += 1;
        }
        self.entries = kept;
        proof {
            assert(all.take(source.len() as int) =~= all);
            assert(self.members() =~= all.to_set().difference(memberships_of(sid)));
        }
    }
}

} // verus!
