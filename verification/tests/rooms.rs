use std::sync::Arc;

use socketioxide::adapter::in_any_room;
use socketioxide::adapter::is_target;
use socketioxide::adapter::Adapter;
use socketioxide::adapter::BroadcastOptions;
use socketioxide::adapter::LocalAdapter;
use socketioxide::client::Client;
use socketioxide::config::SocketIoConfig;
use socketioxide::errors::Error;
use socketioxide::ns::AckError;
use socketioxide::ns::Namespace;
use socketioxide::ns::Notice;
use socketioxide::ns::SocketCloseReason;
use socketioxide::packet::Packet;
use socketioxide::packet::PacketData;
use socketioxide::sid::Sid;

type Callback = fn(Sid, Vec<u8>) -> Result<(), Vec<u8>>;

fn accept(_: Sid, _: Vec<u8>) -> Result<(), Vec<u8>> {
    Ok(())
}

fn odd_only(sid: Sid, _: Vec<u8>) -> Result<(), Vec<u8>> {
    if sid.to_bits() % 2 == 1 {
        Ok(())
    } else {
        Err(b"\"even\"".to_vec())
    }
}

fn rooms(names: &[&str]) -> Vec<Vec<u8>> {
    names.iter().map(|n| n.as_bytes().to_vec()).collect()
}

fn opts(to: &[&str], except: &[&str], skip: Option<u128>) -> BroadcastOptions {
    BroadcastOptions { rooms: rooms(to), except: rooms(except), skip: skip.map(Sid::new), local: true, timeout: None }
}

fn sids(bits: &[u128]) -> Vec<Sid> {
    bits.iter().map(|b| Sid::new(*b)).collect()
}

fn namespace(n: u128) -> Namespace<LocalAdapter, Callback> {
    let mut ns = Namespace::new(b"/chat".to_vec(), accept as Callback);
    for bits in 1..=n {
        assert_eq!(ns.connect(Sid::new(bits), b"null".to_vec()), Ok(()));
    }
    ns
}

#[test]
fn the_local_adapter_keeps_memberships() {
    let mut a = LocalAdapter::new();
    assert_eq!(a.len(), 0);
    a.add_all(Sid::new(1), &rooms(&["a", "b"]));
    a.add_all(Sid::new(2), &rooms(&["b"]));
    // joining twice counts once
    a.add_all(Sid::new(1), &rooms(&["b", "c", "c"]));
    assert_eq!(a.len(), 4);
    assert!(a.is_member(b"a", Sid::new(1)));
    assert!(a.is_member(b"b", Sid::new(1)));
    assert!(a.is_member(b"c", Sid::new(1)));
    assert!(a.is_member(b"b", Sid::new(2)));
    assert!(!a.is_member(b"a", Sid::new(2)));
    assert!(!a.is_member(b"", Sid::new(1)));
    a.del(Sid::new(1), &rooms(&["b", "zzz"]));
    assert!(!a.is_member(b"b", Sid::new(1)));
    assert!(a.is_member(b"b", Sid::new(2)));
    assert!(a.is_member(b"a", Sid::new(1)));
    assert_eq!(a.len(), 3);
    a.del_all(Sid::new(1));
    assert!(!a.is_member(b"a", Sid::new(1)));
    assert!(!a.is_member(b"c", Sid::new(1)));
    assert!(a.is_member(b"b", Sid::new(2)));
    assert_eq!(a.len(), 1);
    a.del_all(Sid::new(3));
    a.del(Sid::new(2), &rooms(&[]));
    assert_eq!(a.len(), 1);
}

#[test]
fn targets_of_a_broadcast() {
    let mut a = LocalAdapter::new();
    a.add_all(Sid::new(1), &rooms(&["a"]));
    a.add_all(Sid::new(2), &rooms(&["a", "b"]));
    a.add_all(Sid::new(3), &rooms(&["b"]));
    assert!(in_any_room(&a, &rooms(&["x", "a"]), Sid::new(1)));
    assert!(!in_any_room(&a, &rooms(&["b"]), Sid::new(1)));
    assert!(!in_any_room(&a, &rooms(&[]), Sid::new(1)));
    // no target rooms: everybody
    assert!(is_target(&a, &opts(&[], &[], None), Sid::new(4)));
    assert!(is_target(&a, &opts(&["a"], &[], None), Sid::new(1)));
    assert!(!is_target(&a, &opts(&["a"], &[], None), Sid::new(3)));
    assert!(!is_target(&a, &opts(&["a"], &["b"], None), Sid::new(2)));
    assert!(is_target(&a, &opts(&["a", "b"], &[], None), Sid::new(3)));
    assert!(!is_target(&a, &opts(&[], &["a"], None), Sid::new(1)));
    assert!(!is_target(&a, &opts(&[], &[], Some(1)), Sid::new(1)));
    assert!(is_target(&a, &opts(&[], &[], Some(1)), Sid::new(2)));
}

#[test]
fn the_connect_callback_decides_who_gets_a_socket() {
    let mut ns: Namespace<LocalAdapter, Callback> = Namespace::new(b"/odd".to_vec(), odd_only as Callback);
    assert_eq!(ns.connect(Sid::new(1), vec![]), Ok(()));
    assert_eq!(ns.connect(Sid::new(2), vec![]), Err(b"\"even\"".to_vec()));
    assert_eq!(ns.connect(Sid::new(3), vec![]), Ok(()));
    assert_eq!(ns.sids(), sids(&[1, 3]));
    assert!(ns.has_socket(Sid::new(1)) && !ns.has_socket(Sid::new(2)));
    ns.admit_socket(Sid::new(2), true);
    ns.admit_socket(Sid::new(4), false);
    ns.admit_socket(Sid::new(1), true);
    assert_eq!(ns.sids(), sids(&[1, 3, 2]));
    // a connected session is accepted without asking
    assert_eq!(ns.connect(Sid::new(2), vec![]), Ok(()));
    assert_eq!(ns.len(), 3);
}

#[test]
fn sockets_join_and_leave_rooms() {
    let mut ns = namespace(3);
    assert_eq!(ns.join(Sid::new(1), &rooms(&["a", "b"])), Ok(()));
    assert_eq!(ns.join(Sid::new(2), &rooms(&["b"])), Ok(()));
    assert_eq!(ns.join(Sid::new(9), &rooms(&["a"])), Err(Error::SocketGone(Sid::new(9))));
    assert!(ns.in_room(Sid::new(1), b"a"));
    assert!(!ns.in_room(Sid::new(9), b"a"));
    assert_eq!(ns.sockets(&opts(&[], &[], None)), sids(&[1, 2, 3]));
    assert_eq!(ns.sockets(&opts(&["a"], &[], None)), sids(&[1]));
    assert_eq!(ns.sockets(&opts(&["b"], &[], None)), sids(&[1, 2]));
    assert_eq!(ns.sockets(&opts(&["b", "a"], &[], None)), sids(&[1, 2]));
    assert_eq!(ns.sockets(&opts(&["b"], &["a"], None)), sids(&[2]));
    assert_eq!(ns.sockets(&opts(&[], &["b"], None)), sids(&[3]));
    assert_eq!(ns.sockets(&opts(&[], &[], Some(2))), sids(&[1, 3]));
    assert_eq!(ns.sockets(&opts(&["nobody"], &[], None)), sids(&[]));
    ns.leave(Sid::new(1), &rooms(&["b"]));
    assert_eq!(ns.sockets(&opts(&["b"], &[], None)), sids(&[2]));
    assert!(ns.in_room(Sid::new(1), b"a"));
    // a socket that goes leaves its rooms
    let mut notices = Vec::new();
    assert!(ns.remove_socket(Sid::new(1), SocketCloseReason::ClientNamespaceDisconnect, &mut notices));
    assert!(!ns.remove_socket(Sid::new(1), SocketCloseReason::ClientNamespaceDisconnect, &mut notices));
    assert_eq!(notices.len(), 1);
    assert!(!ns.in_room(Sid::new(1), b"a"));
    assert_eq!(ns.connect(Sid::new(1), vec![]), Ok(()));
    assert!(!ns.in_room(Sid::new(1), b"a"));
    assert_eq!(ns.sockets(&opts(&[], &[], None)), sids(&[2, 3, 1]));
}

#[test]
fn broadcast_sends_to_every_target() {
    let mut ns = namespace(3);
    ns.join(Sid::new(1), &rooms(&["a"])).unwrap();
    ns.join(Sid::new(3), &rooms(&["a"])).unwrap();
    let event = PacketData::Event(b"[\"news\"]".to_vec(), None);
    let mut notices = Vec::new();
    ns.broadcast(&event, &opts(&["a"], &[], None), &mut notices);
    let sent = |bits: u128| Notice::Send {
        sid: Sid::new(bits),
        packet: Packet { inner: event.clone(), ns: b"/chat".to_vec() },
    };
    assert_eq!(notices, vec![sent(1), sent(3)]);
    notices.clear();
    ns.broadcast(&event, &opts(&[], &[], Some(1)), &mut notices);
    assert_eq!(notices, vec![sent(2), sent(3)]);
    notices.clear();
    ns.broadcast(&event, &opts(&["b"], &[], None), &mut notices);
    assert!(notices.is_empty());
}

#[test]
fn broadcast_with_ack_gives_each_socket_its_own_id() {
    let mut ns = namespace(2);
    let mut notices = Vec::new();
    assert_eq!(ns.register_ack(Sid::new(2)), Ok(0));
    assert_eq!(ns.register_ack(Sid::new(9)), Err(Error::SocketGone(Sid::new(9))));
    ns.broadcast_with_ack(b"[\"q\"]", &opts(&[], &[], None), &mut notices);
    let sent = |bits: u128, id: u64| Notice::Send {
        sid: Sid::new(bits),
        packet: Packet { inner: PacketData::Event(b"[\"q\"]".to_vec(), Some(id)), ns: b"/chat".to_vec() },
    };
    assert_eq!(notices, vec![sent(1, 0), sent(2, 1)]);
    notices.clear();
    assert_eq!(ns.recv(Sid::new(2), PacketData::EventAck(b"[1]".to_vec(), 1), &mut notices), Ok(()));
    assert_eq!(ns.recv(Sid::new(2), PacketData::EventAck(b"[1]".to_vec(), 1), &mut notices), Err(Error::UnknownAckId));
    assert_eq!(ns.recv(Sid::new(1), PacketData::EventAck(b"[1]".to_vec(), 1), &mut notices), Err(Error::UnknownAckId));
    assert_eq!(
        notices,
        vec![Notice::Ack { ns: b"/chat".to_vec(), sid: Sid::new(2), id: 1, data: b"[1]".to_vec(), bin: vec![] }]
    );
    notices.clear();
    assert!(ns.ack_timeout(Sid::new(2), 0, &mut notices));
    assert!(!ns.ack_timeout(Sid::new(2), 0, &mut notices));
    assert_eq!(
        notices,
        vec![Notice::AckFailed { ns: b"/chat".to_vec(), sid: Sid::new(2), id: 0, error: AckError::Timeout }]
    );
}

#[test]
fn the_server_disconnects_the_targets() {
    let mut ns = namespace(3);
    ns.join(Sid::new(1), &rooms(&["a"])).unwrap();
    ns.join(Sid::new(3), &rooms(&["a"])).unwrap();
    ns.register_ack(Sid::new(3)).unwrap();
    let mut notices = Vec::new();
    ns.disconnect_sockets(&opts(&["a"], &[], None), &mut notices);
    let gone = |bits: u128| Notice::Disconnected {
        ns: b"/chat".to_vec(),
        sid: Sid::new(bits),
        reason: SocketCloseReason::ServerNamespaceDisconnect,
    };
    let bye = |bits: u128| Notice::Send { sid: Sid::new(bits), packet: Packet::disconnect(b"/chat".to_vec()) };
    assert_eq!(
        notices,
        vec![
            gone(1),
            bye(1),
            Notice::AckFailed { ns: b"/chat".to_vec(), sid: Sid::new(3), id: 0, error: AckError::SocketClosed },
            gone(3),
            bye(3),
        ]
    );
    assert_eq!(ns.sids(), sids(&[2]));
    assert!(!ns.in_room(Sid::new(1), b"a"));
    notices.clear();
    ns.close(&mut notices);
    assert_eq!(notices, vec![gone(2), bye(2)]);
    assert_eq!(ns.len(), 0);
}

#[test]
fn rooms_through_the_client() {
    let mut c: Client<LocalAdapter, Callback> = Client::new(Arc::new(SocketIoConfig::default()));
    c.add_ns("/chat".to_string(), accept);
    c.add_ns("/".to_string(), accept);
    assert_eq!(c.join(b"/nope", Sid::new(1), &rooms(&["a"])), Err(Error::InvalidNamespace));
    assert_eq!(c.join(b"/chat", Sid::new(1), &rooms(&["a"])), Err(Error::SocketGone(Sid::new(1))));
    let connect = |ns: &[u8]| Packet { inner: PacketData::Connect(None), ns: ns.to_vec() };
    for bits in 1..=3u128 {
        let config = socketioxide::config::EngineIoConfig::default();
        let mut s = socketioxide::session::Session::new(
            Sid::new(bits),
            socketioxide::config::EngineVersion::V4,
            socketioxide::config::TransportType::Polling,
            &config,
            0,
        );
        let mut d = socketioxide::client::SocketData::default();
        c.route(connect(b"/chat"), &mut s, &mut d);
    }
    assert_eq!(c.join(b"/chat", Sid::new(1), &rooms(&["a"])), Ok(()));
    assert_eq!(c.join(b"/chat", Sid::new(2), &rooms(&["a", "b"])), Ok(()));
    c.leave(b"/chat", Sid::new(2), &rooms(&["a"]));
    c.leave(b"/nope", Sid::new(2), &rooms(&["a"]));
    let event = PacketData::Event(b"[\"news\"]".to_vec(), None);
    c.broadcast(b"/chat", &event, &opts(&["a", "b"], &[], Some(2)));
    c.broadcast(b"/", &event, &opts(&[], &[], None));
    c.broadcast(b"/nope", &event, &opts(&[], &[], None));
    assert_eq!(
        c.take_notices(),
        vec![Notice::Send { sid: Sid::new(1), packet: Packet { inner: event.clone(), ns: b"/chat".to_vec() } }]
    );
    c.disconnect_sockets(b"/chat", &opts(&["b"], &[], None));
    c.disconnect_sockets(b"/nope", &opts(&[], &[], None));
    assert_eq!(c.take_notices().len(), 2);
    assert_eq!(c.get_ns("/chat").unwrap().sids(), sids(&[1, 3]));
}

#[test]
fn packet_data_is_copied_in_full() {
    let bin = socketioxide::packet::BinaryPacket::outgoing(b"[\"x\"]".to_vec(), vec![vec![1, 2], vec![], vec![3]]);
    for data in [
        PacketData::Connect(None),
        PacketData::Connect(Some(b"{}".to_vec())),
        PacketData::Disconnect,
        PacketData::Event(b"[1]".to_vec(), Some(4)),
        PacketData::EventAck(b"[2]".to_vec(), 5),
        PacketData::ConnectError(b"\"e\"".to_vec()),
        PacketData::BinaryEvent(bin.clone(), None),
        PacketData::BinaryAck(bin.clone(), 6),
    ] {
        assert_eq!(data.duplicate(), data);
        assert_eq!(data.is_binary(), matches!(data, PacketData::BinaryEvent(..) | PacketData::BinaryAck(..)));
    }
    assert_eq!(bin.duplicate(), bin);
}

/// An adapter that keeps one list per room.
#[derive(Default)]
struct ByRoom {
    rooms: Vec<(Vec<u8>, Vec<Sid>)>,
}

impl Adapter for ByRoom {
    fn new() -> Self {
        ByRoom::default()
    }

    fn add_all(&mut self, sid: Sid, rooms: &Vec<Vec<u8>>) {
        for room in rooms {
            if !self.is_member(room, sid) {
                match self.rooms.iter_mut().find(|(name, _)| name == room) {
                    Some((_, members)) => members.push(sid),
                    None => self.rooms.push((room.clone(), vec![sid])),
                }
            }
        }
    }

    fn del(&mut self, sid: Sid, rooms: &Vec<Vec<u8>>) {
        for (name, members) in self.rooms.iter_mut() {
            if rooms.contains(name) {
                members.retain(|s| *s != sid);
            }
        }
    }

    fn del_all(&mut self, sid: Sid) {
        for (_, members) in self.rooms.iter_mut() {
            members.retain(|s| *s != sid);
        }
    }

    fn is_member(&self, room: &[u8], sid: Sid) -> bool {
        self.rooms.iter().any(|(name, members)| name == room && members.contains(&sid))
    }
}

#[test]
fn a_namespace_works_with_any_adapter() {
    let mut ns: Namespace<ByRoom, Callback> = Namespace::new(b"/chat".to_vec(), accept as Callback);
    for bits in 1..=3u128 {
        assert_eq!(ns.connect(Sid::new(bits), vec![]), Ok(()));
    }
    ns.join(Sid::new(1), &rooms(&["a"])).unwrap();
    ns.join(Sid::new(3), &rooms(&["a", "b"])).unwrap();
    assert_eq!(ns.sockets(&opts(&["a"], &["b"], None)), sids(&[1]));
    assert_eq!(ns.sockets(&opts(&["a"], &[], Some(1))), sids(&[3]));
    let mut notices = Vec::new();
    ns.remove_socket(Sid::new(3), SocketCloseReason::ClientNamespaceDisconnect, &mut notices);
    assert_eq!(ns.sockets(&opts(&["b"], &[], None)), sids(&[]));
    assert!(!ns.in_room(Sid::new(3), b"a"));
}
