use std::sync::Arc;

use socketioxide::adapter::LocalAdapter;
use socketioxide::client::Client;
use socketioxide::client::SocketData;
use socketioxide::config::EngineIoConfig;
use socketioxide::config::EngineVersion;
use socketioxide::config::SocketIoConfig;
use socketioxide::config::TransportType;
use socketioxide::errors::DisconnectReason;
use socketioxide::errors::Error;
use socketioxide::ns::AckError;
use socketioxide::ns::Notice;
use socketioxide::ns::SocketCloseReason;
use socketioxide::packet::BinaryPacket;
use socketioxide::packet::Packet;
use socketioxide::packet::PacketData;
use socketioxide::session::PollStatus;
use socketioxide::session::Session;
use socketioxide::session::SessionState;
use socketioxide::sid::Sid;

type Callback = fn(Sid, Vec<u8>) -> Result<(), Vec<u8>>;

fn accept(_: Sid, _: Vec<u8>) -> Result<(), Vec<u8>> {
    Ok(())
}

fn refuse(_: Sid, _: Vec<u8>) -> Result<(), Vec<u8>> {
    Err(b"{\"message\":\"Not authorized\"}".to_vec())
}

fn refuse_badly(_: Sid, _: Vec<u8>) -> Result<(), Vec<u8>> {
    Err(b"not json".to_vec())
}

fn token_only(_: Sid, auth: Vec<u8>) -> Result<(), Vec<u8>> {
    if auth == b"{\"token\":\"123\"}".to_vec() {
        Ok(())
    } else {
        Err(b"\"bad token\"".to_vec())
    }
}

fn only_null(_: Sid, auth: Vec<u8>) -> Result<(), Vec<u8>> {
    if auth == b"null".to_vec() {
        Ok(())
    } else {
        Err(b"\"auth given\"".to_vec())
    }
}

fn client() -> Client<LocalAdapter, Callback> {
    Client::new(Arc::new(SocketIoConfig::default()))
}

fn client_with(path: &str, callback: Callback) -> Client<LocalAdapter, Callback> {
    let mut c = client();
    c.add_ns(path.to_string(), callback);
    c
}

fn session(bits: u128, version: EngineVersion) -> Session {
    let c = EngineIoConfig::default();
    let mut s = Session::new(Sid::new(bits), version, TransportType::Polling, &c, 0);
    assert_eq!(s.poll_request(), PollStatus::Accepted);
    assert!(s.poll_reply().is_some());
    s
}

fn poll(s: &mut Session) -> Option<Vec<u8>> {
    if s.is_closed() {
        return None;
    }
    assert_eq!(s.poll_request(), PollStatus::Accepted);
    let body = s.poll_reply();
    if body.is_none() {
        assert!(s.poll_deadline());
    }
    body
}

fn connected(c: &mut Client<LocalAdapter, Callback>, bits: u128, path: &[u8]) -> (Session, SocketData) {
    let mut s = session(bits, EngineVersion::V4);
    let mut d = SocketData::default();
    let mut msg = b"0".to_vec();
    msg.extend_from_slice(path);
    msg.push(b',');
    c.on_message(msg, &mut s, &mut d);
    assert!(poll(&mut s).unwrap().starts_with(b"40"));
    (s, d)
}

fn has_socket(c: &Client<LocalAdapter, Callback>, path: &str, bits: u128) -> bool {
    c.get_ns(path).unwrap().has_socket(Sid::new(bits))
}

#[test]
fn namespaces_are_registered_and_deleted() {
    let mut c = client();
    assert!(c.get_ns("/").is_none());
    c.add_ns("/".to_string(), accept);
    c.add_ns("/chat".to_string(), accept);
    assert!(c.get_ns("/").is_some());
    assert_eq!(c.get_ns("/chat").unwrap().path(), b"/chat");
    assert_eq!(c.get_ns("/chat").unwrap().len(), 0);
    assert!(c.has_ns(b"/chat"));
    assert!(c.get_ns("/cha").is_none());
    assert!(c.get_ns("/chat/").is_none());
    c.delete_ns("/chat");
    assert!(c.get_ns("/chat").is_none());
    assert!(c.get_ns("/").is_some());
    c.delete_ns("/chat");
    c.delete_ns("/nope");
    assert!(c.get_ns("/").is_some());
    assert_eq!(c.config().connect_timeout, 45000);
    assert!(c.take_notices().is_empty());
}

#[test]
fn registering_a_path_again_replaces_the_namespace() {
    let mut c = client_with("/chat", accept);
    let (_s, _d) = connected(&mut c, 1, b"/chat");
    assert!(has_socket(&c, "/chat", 1));
    c.add_ns("/chat".to_string(), refuse);
    assert!(!has_socket(&c, "/chat", 1));
    let notices = c.take_notices();
    assert_eq!(
        notices,
        vec![
            Notice::Disconnected {
                ns: b"/chat".to_vec(),
                sid: Sid::new(1),
                reason: SocketCloseReason::ServerNamespaceDisconnect
            },
            Notice::Send { sid: Sid::new(1), packet: Packet::disconnect(b"/chat".to_vec()) },
        ]
    );
    // the new callback decides now
    let mut s = session(2, EngineVersion::V4);
    let mut d = SocketData::default();
    c.on_message(b"0/chat,".to_vec(), &mut s, &mut d);
    assert!(!has_socket(&c, "/chat", 2));
}

#[test]
fn connect_to_an_unknown_namespace() {
    let mut c = client_with("/chat", accept);
    let mut s = session(1, EngineVersion::V4);
    let mut d = SocketData::default();
    c.on_message(b"0/nope,".to_vec(), &mut s, &mut d);
    assert_eq!(poll(&mut s), Some(b"44/nope,{\"message\":\"Invalid namespace\"}".to_vec()));
    // the session stays open
    assert_eq!(s.state(), SessionState::Open);
    assert_eq!(s.close_reason(), None);
    assert!(c.take_notices().is_empty());
    c.on_message(b"0/chat,".to_vec(), &mut s, &mut d);
    assert!(has_socket(&c, "/chat", 1));
}

#[test]
fn connect_is_acknowledged_with_the_session_id() {
    let mut c = client_with("/chat", accept);
    let mut s = session(65, EngineVersion::V4);
    let mut d = SocketData::default();
    c.spawn_connect_timeout_task(&s, &mut d);
    assert!(d.connect_timer);
    c.on_message(b"0/chat,{\"token\":\"123\"}".to_vec(), &mut s, &mut d);
    assert_eq!(poll(&mut s), Some(b"40/chat,{\"sid\":\"AAAAAAAAAAAAAABB\"}".to_vec()));
    assert!(has_socket(&c, "/chat", 65));
    assert_eq!(c.get_ns("/chat").unwrap().len(), 1);
    // the connect timer is stopped
    assert!(!d.connect_timer);
    assert_eq!(d.partial_bin_packet, None);
}

#[test]
fn connect_to_the_default_namespace() {
    let mut c = client_with("/", accept);
    let mut s = session(0, EngineVersion::V4);
    let mut d = SocketData::default();
    c.on_message(b"0".to_vec(), &mut s, &mut d);
    assert_eq!(poll(&mut s), Some(b"40{\"sid\":\"AAAAAAAAAAAAAAAA\"}".to_vec()));
    assert!(has_socket(&c, "/", 0));
}

#[test]
fn the_callback_sees_the_auth_payload() {
    let mut c = client_with("/admin", token_only);
    let mut s = session(1, EngineVersion::V4);
    let mut d = SocketData::default();
    c.on_message(b"0/admin,{\"token\":\"abc\"}".to_vec(), &mut s, &mut d);
    assert_eq!(poll(&mut s), Some(b"44/admin,\"bad token\"".to_vec()));
    assert!(!has_socket(&c, "/admin", 1));
    c.on_message(b"0/admin,{\"token\":\"123\"}".to_vec(), &mut s, &mut d);
    assert!(poll(&mut s).unwrap().starts_with(b"40/admin,{\"sid\":"));
    assert!(has_socket(&c, "/admin", 1));
    // without a payload the callback gets the text null
    let mut c = client_with("/admin", only_null);
    c.on_message(b"0/admin,".to_vec(), &mut s, &mut d);
    assert!(has_socket(&c, "/admin", 1));
    let mut s2 = session(2, EngineVersion::V4);
    c.on_message(b"0/admin,{}".to_vec(), &mut s2, &mut d);
    assert!(!has_socket(&c, "/admin", 2));
}

#[test]
fn a_refused_connect_gets_a_connect_error_and_no_socket() {
    let mut c = client_with("/chat", refuse);
    let mut s = session(1, EngineVersion::V4);
    let mut d = SocketData::default();
    d.connect_timer = true;
    c.on_message(b"0/chat,".to_vec(), &mut s, &mut d);
    assert_eq!(poll(&mut s), Some(b"44/chat,{\"message\":\"Not authorized\"}".to_vec()));
    assert!(!has_socket(&c, "/chat", 1));
    assert_eq!(s.state(), SessionState::Open);
    assert!(d.connect_timer);
    // no event reaches a socket that was never acknowledged
    c.on_message(b"2/chat,[\"hello\"]".to_vec(), &mut s, &mut d);
    assert!(c.take_notices().is_empty());
    assert_eq!(s.state(), SessionState::Open);
}

#[test]
fn a_refusal_that_cannot_be_framed_is_not_sent_and_closes_nothing() {
    let mut c = client_with("/chat", refuse_badly);
    let mut s = session(1, EngineVersion::V4);
    let mut d = SocketData::default();
    d.connect_timer = true;
    assert_eq!(c.sock_connect(b"null".to_vec(), b"/chat".to_vec(), &mut s, &mut d), Ok(()));
    assert_eq!(s.pending(), 0);
    assert!(s.is_live());
    c.on_message(b"0/chat,".to_vec(), &mut s, &mut d);
    assert_eq!(s.state(), SessionState::Open);
    assert_eq!(s.close_reason(), None);
    assert_eq!(s.pending(), 0);
    assert!(d.connect_timer);
    assert!(!has_socket(&c, "/chat", 1));
}

#[test]
fn a_connect_to_a_missing_namespace_is_never_an_error() {
    let mut c = client_with("/chat", accept);
    let mut s = session(1, EngineVersion::V4);
    let mut d = SocketData::default();
    assert_eq!(c.sock_connect(b"null".to_vec(), b"/nope".to_vec(), &mut s, &mut d), Ok(()));
    assert_eq!(poll(&mut s), Some(b"44/nope,{\"message\":\"Invalid namespace\"}".to_vec()));
    // a path that cannot be framed: nothing can be sent, and the session stays
    for path in [&b"nope"[..], b"/a,b", b""] {
        assert_eq!(c.sock_connect(b"null".to_vec(), path.to_vec(), &mut s, &mut d), Ok(()));
        assert_eq!(s.pending(), 0);
        assert_eq!(s.state(), SessionState::Open);
    }
    // version four and the default namespace
    let mut s = session(2, EngineVersion::V3);
    assert_eq!(c.sock_connect(b"null".to_vec(), b"/".to_vec(), &mut s, &mut d), Ok(()));
    assert_eq!(s.close_reason(), Some(DisconnectReason::TransportClose));
    assert!(c.take_notices().is_empty());
}

#[test]
fn any_path_can_be_registered() {
    let mut c = client();
    c.add_ns("chat".to_string(), accept);
    c.add_ns("/a,b".to_string(), refuse);
    c.add_ns("/chat".to_string(), accept);
    assert_eq!(c.get_ns("chat").unwrap().path(), b"chat");
    assert!(c.get_ns("/a,b").is_some());
    // a connect reply for such a path cannot be framed
    let mut s = session(1, EngineVersion::V4);
    let mut d = SocketData::default();
    assert_eq!(
        c.sock_connect(b"null".to_vec(), b"chat".to_vec(), &mut s, &mut d),
        Err(Error::InvalidNamespace)
    );
    assert!(!has_socket(&c, "chat", 1));
    assert_eq!(s.pending(), 0);
    // registering again replaces the callback and leaves the others
    c.add_ns("/a,b".to_string(), accept);
    assert!(c.get_ns("chat").is_some() && c.get_ns("/chat").is_some() && c.get_ns("/a,b").is_some());
    c.delete_ns("chat");
    assert!(c.get_ns("chat").is_none() && c.get_ns("/chat").is_some());
}

#[test]
fn connecting_twice_keeps_the_socket() {
    let mut c = client_with("/chat", accept);
    let (mut s, mut d) = connected(&mut c, 1, b"/chat");
    c.on_message(b"0/chat,".to_vec(), &mut s, &mut d);
    assert!(poll(&mut s).unwrap().starts_with(b"40/chat,"));
    assert_eq!(c.get_ns("/chat").unwrap().len(), 1);
}

#[test]
fn version_four_connects_to_the_default_namespace_on_open() {
    let mut c = client_with("/", accept);
    let mut s = session(1, EngineVersion::V3);
    let mut d = SocketData::default();
    c.on_connect(&mut s, &mut d);
    assert_eq!(poll(&mut s), Some(b"40".to_vec()));
    assert!(has_socket(&c, "/", 1));
    assert!(!d.connect_timer);
    assert!(c.take_notices().is_empty());
    // other namespaces are acknowledged without a payload too
    c.add_ns("/admin".to_string(), accept);
    c.on_message(b"0/admin,".to_vec(), &mut s, &mut d);
    assert_eq!(poll(&mut s), Some(b"40/admin,".to_vec()));
}

#[test]
fn version_four_without_a_default_namespace_is_closed() {
    let mut c = client_with("/chat", accept);
    let mut s = session(1, EngineVersion::V3);
    let mut d = SocketData::default();
    c.on_connect(&mut s, &mut d);
    assert_eq!(s.state(), SessionState::Closing);
    assert_eq!(s.close_reason(), Some(DisconnectReason::TransportClose));
    assert_eq!(poll(&mut s), Some(b"1".to_vec()));
    assert!(s.is_closed());
    // any other unknown namespace is only refused
    let mut s = session(2, EngineVersion::V3);
    c.on_message(b"0/nope,".to_vec(), &mut s, &mut d);
    assert_eq!(poll(&mut s), Some(b"44/nope,{\"message\":\"Invalid namespace\"}".to_vec()));
    assert!(s.is_live());
}

#[test]
fn version_five_gets_a_connect_timer() {
    let mut c = client_with("/", accept);
    let mut s = session(9, EngineVersion::V4);
    let mut d = SocketData::default();
    c.on_connect(&mut s, &mut d);
    assert!(d.connect_timer);
    assert_eq!(s.pending(), 0);
    assert!(!has_socket(&c, "/", 9));
    assert_eq!(c.take_notices(), vec![Notice::ConnectTimer { sid: Sid::new(9), after: 45000 }]);
    // no connect packet arrives in time
    assert!(Client::<LocalAdapter, Callback>::connect_timeout(&mut s, &mut d));
    assert_eq!(s.close_reason(), Some(DisconnectReason::TransportClose));
    assert!(!d.connect_timer);
}

#[test]
fn a_connect_in_time_stops_the_timer() {
    let mut c = client_with("/", accept);
    let mut s = session(9, EngineVersion::V4);
    let mut d = SocketData::default();
    c.on_connect(&mut s, &mut d);
    c.on_message(b"0".to_vec(), &mut s, &mut d);
    assert!(!d.connect_timer);
    assert!(!Client::<LocalAdapter, Callback>::connect_timeout(&mut s, &mut d));
    assert!(s.is_live());
    assert_eq!(s.close_reason(), None);
}

#[test]
fn events_reach_the_socket_they_are_meant_for() {
    let mut c = client_with("/chat", accept);
    c.add_ns("/".to_string(), accept);
    let (mut s, mut d) = connected(&mut c, 1, b"/chat");
    c.on_message(b"2/chat,[\"hello\",{\"a\":1}]".to_vec(), &mut s, &mut d);
    c.on_message(b"2/chat,17[\"question\"]".to_vec(), &mut s, &mut d);
    assert_eq!(
        c.take_notices(),
        vec![
            Notice::Event {
                ns: b"/chat".to_vec(),
                sid: Sid::new(1),
                data: b"[\"hello\",{\"a\":1}]".to_vec(),
                bin: vec![],
                ack: None
            },
            Notice::Event {
                ns: b"/chat".to_vec(),
                sid: Sid::new(1),
                data: b"[\"question\"]".to_vec(),
                bin: vec![],
                ack: Some(17)
            },
        ]
    );
    // an event for a namespace in which the session has no socket, or
    // for one that is not registered, is dropped
    c.on_message(b"2[\"hello\"]".to_vec(), &mut s, &mut d);
    c.on_message(b"2/nope,[\"hello\"]".to_vec(), &mut s, &mut d);
    assert!(c.take_notices().is_empty());
    assert!(s.is_live());
    assert_eq!(s.pending(), 0);
}

#[test]
fn propagation_reports_what_the_namespace_says() {
    let mut c = client_with("/chat", accept);
    let (_s, _d) = connected(&mut c, 1, b"/chat");
    let event = |ns: &[u8]| Packet { inner: PacketData::Event(b"[\"e\"]".to_vec(), None), ns: ns.to_vec() };
    assert_eq!(c.sock_propagate_packet(event(b"/chat"), Sid::new(1)), Ok(()));
    assert_eq!(c.sock_propagate_packet(event(b"/chat"), Sid::new(2)), Err(Error::SocketGone(Sid::new(2))));
    assert_eq!(c.sock_propagate_packet(event(b"/nope"), Sid::new(1)), Ok(()));
    let ack = Packet { inner: PacketData::EventAck(b"[]".to_vec(), 3), ns: b"/chat".to_vec() };
    assert_eq!(c.sock_propagate_packet(ack, Sid::new(1)), Err(Error::UnknownAckId));
    let connect = Packet { inner: PacketData::Connect(None), ns: b"/chat".to_vec() };
    assert_eq!(c.sock_propagate_packet(connect, Sid::new(1)), Err(Error::InvalidPacketType));
    assert_eq!(c.take_notices().len(), 1);
}

#[test]
fn binary_reassembly() {
    let mut c = client_with("/chat", accept);
    let (mut s, mut d) = connected(&mut c, 1, b"/chat");
    let header = b"51-/chat,[\"img\",{\"_placeholder\":true,\"num\":0}]".to_vec();
    c.on_message(header, &mut s, &mut d);
    assert!(c.take_notices().is_empty());
    assert!(d.partial_bin_packet.is_some());
    c.on_binary(vec![0xDE, 0xAD, 0xBE, 0xEF], &mut s, &mut d);
    assert_eq!(
        c.take_notices(),
        vec![Notice::Event {
            ns: b"/chat".to_vec(),
            sid: Sid::new(1),
            data: b"[\"img\",{\"_placeholder\":true,\"num\":0}]".to_vec(),
            bin: vec![vec![0xDE, 0xAD, 0xBE, 0xEF]],
            ack: None
        }]
    );
    assert_eq!(d.partial_bin_packet, None);
    assert!(s.is_live());
    // a second binary frame before any new header
    c.on_binary(vec![0xDE, 0xAD, 0xBE, 0xEF], &mut s, &mut d);
    assert_eq!(s.close_reason(), Some(DisconnectReason::PacketParsingError));
    assert!(!s.is_live());
    assert!(c.take_notices().is_empty());
}

#[test]
fn attachments_arrive_in_the_order_of_their_placeholders() {
    let mut c = client_with("/", accept);
    let (mut s, mut d) = connected(&mut c, 1, b"/");
    let data = b"[{\"_placeholder\":true,\"num\":1},{\"x\":[{\"_placeholder\":true,\"num\":0}]},{\"_placeholder\":true,\"num\":2}]";
    let mut header = b"53-9".to_vec();
    header.extend_from_slice(data);
    c.on_message(header, &mut s, &mut d);
    c.on_binary(vec![0], &mut s, &mut d);
    c.on_binary(vec![], &mut s, &mut d);
    assert!(c.take_notices().is_empty());
    c.on_binary(vec![2, 2], &mut s, &mut d);
    assert_eq!(
        c.take_notices(),
        vec![Notice::Event {
            ns: b"/".to_vec(),
            sid: Sid::new(1),
            data: data.to_vec(),
            bin: vec![vec![0], vec![], vec![2, 2]],
            ack: Some(9)
        }]
    );
}

#[test]
fn a_binary_packet_without_attachments_goes_on_at_once() {
    let mut c = client_with("/", accept);
    let (mut s, mut d) = connected(&mut c, 1, b"/");
    c.on_message(b"50-[\"plain\"]".to_vec(), &mut s, &mut d);
    assert_eq!(d.partial_bin_packet, None);
    assert_eq!(
        c.take_notices(),
        vec![Notice::Event { ns: b"/".to_vec(), sid: Sid::new(1), data: b"[\"plain\"]".to_vec(), bin: vec![], ack: None }]
    );
}

#[test]
fn a_text_frame_between_header_and_attachments_is_a_parsing_error() {
    let mut c = client_with("/", accept);
    let (mut s, mut d) = connected(&mut c, 1, b"/");
    c.on_message(b"52-[\"two\"]".to_vec(), &mut s, &mut d);
    c.on_binary(vec![1], &mut s, &mut d);
    c.on_message(b"2[\"in between\"]".to_vec(), &mut s, &mut d);
    assert_eq!(s.close_reason(), Some(DisconnectReason::PacketParsingError));
    assert_eq!(d.partial_bin_packet, None);
    assert!(c.take_notices().is_empty());
}

#[test]
fn an_attachment_is_added_to_the_waiting_packet_only() {
    let mut d = SocketData::default();
    assert_eq!(
        Client::<LocalAdapter, Callback>::apply_payload_on_packet(vec![1], &mut d),
        Err(Error::UnexpectedBinary)
    );
    let header = Packet::decode(b"52-[\"x\"]").unwrap();
    Client::<LocalAdapter, Callback>::sock_recv_bin_packet(&mut d, header);
    assert_eq!(Client::<LocalAdapter, Callback>::apply_payload_on_packet(vec![1], &mut d), Ok(false));
    assert_eq!(Client::<LocalAdapter, Callback>::apply_payload_on_packet(vec![2], &mut d), Ok(true));
    let expected = BinaryPacket { data: b"[\"x\"]".to_vec(), bin: vec![vec![1], vec![2]], payload_count: 2 };
    assert_eq!(
        d.partial_bin_packet,
        Some(Packet { inner: PacketData::BinaryEvent(expected, None), ns: b"/".to_vec() })
    );
}

#[test]
fn a_message_that_does_not_decode_closes_the_session() {
    for bad in [&b""[..], b"9", b"2", b"2[", b"2chat,[]", b"3[]", b"5[\"x\"]"] {
        let mut c = client_with("/", accept);
        let (mut s, mut d) = connected(&mut c, 1, b"/");
        c.on_message(bad.to_vec(), &mut s, &mut d);
        assert_eq!(s.state(), SessionState::Closing);
        assert_eq!(s.close_reason(), Some(DisconnectReason::PacketParsingError));
        assert!(c.take_notices().is_empty());
        assert!(has_socket(&c, "/", 1));
    }
}

#[test]
fn acknowledgements_are_matched_by_id() {
    let mut c = client_with("/chat", accept);
    let (mut s, mut d) = connected(&mut c, 1, b"/chat");
    let all = socketioxide::adapter::BroadcastOptions { rooms: vec![], except: vec![], skip: None, local: true, timeout: Some(5000) };
    c.broadcast_with_ack(b"/chat", b"[\"ping\"]", &all);
    c.broadcast_with_ack(b"/chat", b"[\"pong\"]", &all);
    let sent = |data: &[u8], id: u64| Notice::Send {
        sid: Sid::new(1),
        packet: Packet { inner: PacketData::Event(data.to_vec(), Some(id)), ns: b"/chat".to_vec() },
    };
    assert_eq!(c.take_notices(), vec![sent(b"[\"ping\"]", 0), sent(b"[\"pong\"]", 1)]);
    // an answer that nobody awaits is dropped silently
    c.on_message(b"3/chat,7[\"who\"]".to_vec(), &mut s, &mut d);
    assert!(c.take_notices().is_empty());
    assert!(s.is_live());
    c.on_message(b"3/chat,1[\"second\"]".to_vec(), &mut s, &mut d);
    c.on_message(b"61-/chat,0[{\"_placeholder\":true,\"num\":0}]".to_vec(), &mut s, &mut d);
    c.on_binary(vec![7], &mut s, &mut d);
    assert_eq!(
        c.take_notices(),
        vec![
            Notice::Ack { ns: b"/chat".to_vec(), sid: Sid::new(1), id: 1, data: b"[\"second\"]".to_vec(), bin: vec![] },
            Notice::Ack {
                ns: b"/chat".to_vec(),
                sid: Sid::new(1),
                id: 0,
                data: b"[{\"_placeholder\":true,\"num\":0}]".to_vec(),
                bin: vec![vec![7]]
            },
        ]
    );
    // each answer counts once
    c.on_message(b"3/chat,1[\"again\"]".to_vec(), &mut s, &mut d);
    assert!(c.take_notices().is_empty());
}

#[test]
fn an_acknowledgement_can_time_out() {
    let mut c = client_with("/chat", accept);
    let (mut s, mut d) = connected(&mut c, 1, b"/chat");
    let all = socketioxide::adapter::BroadcastOptions { rooms: vec![], except: vec![], skip: None, local: true, timeout: Some(5000) };
    c.broadcast_with_ack(b"/chat", b"[\"ping\"]", &all);
    c.take_notices();
    assert!(!c.ack_timeout(b"/chat", Sid::new(1), 5));
    assert!(!c.ack_timeout(b"/chat", Sid::new(2), 0));
    assert!(!c.ack_timeout(b"/nope", Sid::new(1), 0));
    assert!(c.take_notices().is_empty());
    assert!(c.ack_timeout(b"/chat", Sid::new(1), 0));
    assert_eq!(
        c.take_notices(),
        vec![Notice::AckFailed { ns: b"/chat".to_vec(), sid: Sid::new(1), id: 0, error: AckError::Timeout }]
    );
    assert!(!c.ack_timeout(b"/chat", Sid::new(1), 0));
    // the late answer is unknown now
    c.on_message(b"3/chat,0[]".to_vec(), &mut s, &mut d);
    assert!(c.take_notices().is_empty());
}

#[test]
fn a_disconnect_packet_removes_the_socket() {
    let mut c = client_with("/chat", accept);
    c.add_ns("/".to_string(), accept);
    let (mut s, mut d) = connected(&mut c, 1, b"/chat");
    c.on_message(b"0".to_vec(), &mut s, &mut d);
    poll(&mut s);
    let all = socketioxide::adapter::BroadcastOptions { rooms: vec![], except: vec![], skip: None, local: true, timeout: None };
    c.broadcast_with_ack(b"/chat", b"[\"a\"]", &all);
    c.broadcast_with_ack(b"/chat", b"[\"b\"]", &all);
    c.take_notices();
    c.on_message(b"1/chat,".to_vec(), &mut s, &mut d);
    assert!(!has_socket(&c, "/chat", 1));
    assert!(has_socket(&c, "/", 1));
    let failed = |id: u64| Notice::AckFailed { ns: b"/chat".to_vec(), sid: Sid::new(1), id, error: AckError::SocketClosed };
    assert_eq!(
        c.take_notices(),
        vec![
            failed(0),
            failed(1),
            Notice::Disconnected {
                ns: b"/chat".to_vec(),
                sid: Sid::new(1),
                reason: SocketCloseReason::ClientNamespaceDisconnect
            },
        ]
    );
    assert!(s.is_live());
    // events no longer reach it
    c.on_message(b"2/chat,[\"late\"]".to_vec(), &mut s, &mut d);
    assert!(c.take_notices().is_empty());
}

#[test]
fn the_end_of_a_session_removes_its_sockets_everywhere() {
    let mut c = client_with("/", accept);
    c.add_ns("/chat".to_string(), accept);
    c.add_ns("/admin".to_string(), accept);
    let (mut s, mut d) = connected(&mut c, 1, b"/admin");
    c.on_message(b"0".to_vec(), &mut s, &mut d);
    let (_s2, _d2) = connected(&mut c, 2, b"/admin");
    c.on_message(b"52-[\"x\"]".to_vec(), &mut s, &mut d);
    d.connect_timer = true;
    c.on_disconnect(&s, DisconnectReason::HeartbeatTimeout, &mut d);
    let gone = |ns: &[u8]| Notice::Disconnected {
        ns: ns.to_vec(),
        sid: Sid::new(1),
        reason: SocketCloseReason::Engine(DisconnectReason::HeartbeatTimeout),
    };
    assert_eq!(c.take_notices(), vec![gone(b"/"), gone(b"/admin")]);
    assert!(!has_socket(&c, "/", 1));
    assert!(!has_socket(&c, "/admin", 1));
    assert!(has_socket(&c, "/admin", 2));
    assert_eq!(d, SocketData::default());
}

#[test]
fn deleting_a_namespace_closes_its_sockets() {
    let mut c = client_with("/chat", accept);
    c.add_ns("/".to_string(), accept);
    let (_s1, _d1) = connected(&mut c, 1, b"/chat");
    let (_s2, _d2) = connected(&mut c, 2, b"/chat");
    let (_s3, _d3) = connected(&mut c, 3, b"/");
    c.delete_ns("/chat");
    let bye = |bits: u128| {
        vec![
            Notice::Disconnected {
                ns: b"/chat".to_vec(),
                sid: Sid::new(bits),
                reason: SocketCloseReason::ServerNamespaceDisconnect,
            },
            Notice::Send { sid: Sid::new(bits), packet: Packet::disconnect(b"/chat".to_vec()) },
        ]
    };
    assert_eq!(c.take_notices(), [bye(1), bye(2)].concat());
    assert!(c.get_ns("/chat").is_none());
    assert!(has_socket(&c, "/", 3));
}

#[test]
fn closing_the_client_closes_every_socket() {
    let mut c = client_with("/", accept);
    c.add_ns("/chat".to_string(), accept);
    let (_s1, _d1) = connected(&mut c, 1, b"/chat");
    let (_s2, _d2) = connected(&mut c, 2, b"/");
    c.close();
    let bye = |ns: &[u8], bits: u128| {
        vec![
            Notice::Disconnected {
                ns: ns.to_vec(),
                sid: Sid::new(bits),
                reason: SocketCloseReason::ServerNamespaceDisconnect,
            },
            Notice::Send { sid: Sid::new(bits), packet: Packet::disconnect(ns.to_vec()) },
        ]
    };
    assert_eq!(c.take_notices(), [bye(b"/", 2), bye(b"/chat", 1)].concat());
    assert_eq!(c.get_ns("/").unwrap().len(), 0);
    assert_eq!(c.get_ns("/chat").unwrap().len(), 0);
    c.close();
    assert!(c.take_notices().is_empty());
}

#[test]
fn packets_are_handed_to_the_session_as_messages() {
    let mut s = session(1, EngineVersion::V4);
    let p = Packet { inner: PacketData::Event(b"[\"x\"]".to_vec(), None), ns: b"/chat".to_vec() };
    assert_eq!(socketioxide::client::send_packet(&mut s, &p), Ok(()));
    let bad = Packet { inner: PacketData::Event(b"[\"x\"".to_vec(), None), ns: b"/chat".to_vec() };
    assert_eq!(socketioxide::client::send_packet(&mut s, &bad), Err(Error::InvalidJson));
    assert_eq!(poll(&mut s), Some(b"42/chat,[\"x\"]".to_vec()));
    socketioxide::client::close_on_error(&mut s, Ok(()));
    socketioxide::client::close_on_error(&mut s, Err(Error::UnknownAckId));
    assert!(s.is_live());
    socketioxide::client::close_on_error(&mut s, Err(Error::InvalidJson));
    assert_eq!(s.close_reason(), Some(DisconnectReason::PacketParsingError));
}

#[test]
fn frames_are_taken_into_the_reassembly_one_by_one() {
    let mut d = SocketData::default();
    let event = Packet { inner: PacketData::Event(b"[\"e\"]".to_vec(), None), ns: b"/".to_vec() };
    assert_eq!(Client::<LocalAdapter, Callback>::accept_binary(vec![1], &mut d), Err(Error::UnexpectedBinary));
    assert_eq!(Client::<LocalAdapter, Callback>::accept_text(b"2[\"e\"]", &mut d), Ok(Some(event)));
    assert_eq!(Client::<LocalAdapter, Callback>::accept_text(b"9", &mut d), Err(Error::InvalidPacketType));
    assert_eq!(Client::<LocalAdapter, Callback>::accept_text(b"2nope,[]", &mut d), Err(Error::InvalidNamespace));
    assert_eq!(Client::<LocalAdapter, Callback>::accept_text(b"2[", &mut d), Err(Error::InvalidJson));
    assert_eq!(d, SocketData::default());
    // a header, one of its two attachments, and then a text frame
    assert_eq!(Client::<LocalAdapter, Callback>::accept_text(b"52-[\"e\"]", &mut d), Ok(None));
    assert_eq!(Client::<LocalAdapter, Callback>::accept_binary(vec![1], &mut d), Ok(None));
    assert_eq!(Client::<LocalAdapter, Callback>::accept_text(b"2[\"e\"]", &mut d), Err(Error::MissingAttachments));
    assert_eq!(d.partial_bin_packet, None);
    // the packet that waited is gone with the violation
    assert_eq!(Client::<LocalAdapter, Callback>::accept_binary(vec![2], &mut d), Err(Error::UnexpectedBinary));
    // exactly the declared attachments, in order
    d.connect_timer = true;
    assert_eq!(Client::<LocalAdapter, Callback>::accept_text(b"62-/a,7[\"e\"]", &mut d), Ok(None));
    assert_eq!(Client::<LocalAdapter, Callback>::accept_binary(vec![1], &mut d), Ok(None));
    let bin = BinaryPacket { data: b"[\"e\"]".to_vec(), bin: vec![vec![1], vec![2, 2]], payload_count: 2 };
    assert_eq!(
        Client::<LocalAdapter, Callback>::accept_binary(vec![2, 2], &mut d),
        Ok(Some(Packet { inner: PacketData::BinaryAck(bin, 7), ns: b"/a".to_vec() }))
    );
    assert_eq!(d.partial_bin_packet, None);
    assert!(d.connect_timer);
}

#[test]
fn a_packet_survives_the_wire_with_its_attachments() {
    let bin = BinaryPacket::outgoing(
        b"[{\"_placeholder\":true,\"num\":0},{\"a\":[{\"_placeholder\":true,\"num\":1}]}]".to_vec(),
        vec![vec![1, 2, 3], vec![]],
    );
    let sent = Packet { inner: PacketData::BinaryEvent(bin, Some(3)), ns: b"/files".to_vec() };
    let mut d = SocketData::default();
    assert_eq!(Client::<LocalAdapter, Callback>::accept_text(&sent.encode().unwrap(), &mut d), Ok(None));
    assert_eq!(Client::<LocalAdapter, Callback>::accept_binary(vec![1, 2, 3], &mut d), Ok(None));
    assert_eq!(Client::<LocalAdapter, Callback>::accept_binary(vec![], &mut d), Ok(Some(sent)));
}
