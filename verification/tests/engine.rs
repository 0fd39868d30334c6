use std::sync::Arc;

use socketioxide::adapter::LocalAdapter;
use socketioxide::client::Client;
use socketioxide::client::SocketData;
use socketioxide::config::EngineIoConfig;
use socketioxide::config::SocketIoConfig;
use socketioxide::config::TransportType;
use socketioxide::engine;
use socketioxide::engine::GetOutcome;
use socketioxide::engine::HttpReply;
use socketioxide::engine::ProbeReply;
use socketioxide::engine::WsOutcome;
use socketioxide::engine_packet::EnginePacket;
use socketioxide::engine_packet::Frame;
use socketioxide::errors::DisconnectReason;
use socketioxide::handler::dispatch;
use socketioxide::handler::EngineIoHandler;
use socketioxide::layer::EngineIoLayer;
use socketioxide::ns::Notice;
use socketioxide::ns::SocketCloseReason;
use socketioxide::registry::Registry;
use socketioxide::request::RequestError;
use socketioxide::session::Session;
use socketioxide::session::SessionState;
use socketioxide::sid::Sid;

/// Sends every message back and keeps a log of what it was told.
#[derive(Default)]
struct Echo {
    log: Vec<String>,
}

impl EngineIoHandler for Echo {
    type Data = u32;

    fn fresh_data(&self) -> u32 {
        0
    }

    fn on_connect(&mut self, socket: &mut Session, _data: &mut u32) {
        self.log.push(format!("connect {}", socket.id().to_bits()));
    }

    fn on_disconnect(&mut self, socket: &Session, reason: DisconnectReason, _data: &mut u32) {
        self.log.push(format!("disconnect {} {:?}", socket.id().to_bits(), reason));
    }

    fn on_message(&mut self, msg: Vec<u8>, socket: &mut Session, data: &mut u32) {
        *data += 1;
        let _ = socket.emit(msg);
    }

    fn on_binary(&mut self, payload: Vec<u8>, socket: &mut Session, data: &mut u32) {
        *data += 1;
        let _ = socket.emit_binary(payload);
    }
}

fn ok(body: &[u8]) -> GetOutcome {
    GetOutcome::Reply(HttpReply { status: 200, body: body.to_vec() })
}

fn refused(e: RequestError) -> HttpReply {
    HttpReply { status: e.status(), body: e.body() }
}

fn handshake(r: &mut Registry<u32>, h: &mut Echo, bits: u128) -> Vec<u8> {
    match engine::polling_get(r, h, b"EIO=4&transport=polling", Sid::new(bits), 0) {
        GetOutcome::Reply(HttpReply { status: 200, body }) => body,
        other => panic!("no handshake: {:?}", other),
    }
}

fn query(transport: &str, bits: u128) -> Vec<u8> {
    let mut q = format!("EIO=4&transport={}&sid=", transport).into_bytes();
    q.extend(Sid::new(bits).to_text());
    q
}

#[test]
fn handshake_and_message() {
    let mut r: Registry<u32> = Registry::new(EngineIoConfig::default());
    let mut h = Echo::default();
    let body = handshake(&mut r, &mut h, 5);
    assert_eq!(body[0], b'0');
    let v: serde_json::Value = serde_json::from_slice(&body[1..]).unwrap();
    let sid = v["sid"].as_str().unwrap().to_string();
    assert_eq!(sid.len(), 16);
    assert_eq!(sid.as_bytes(), &Sid::new(5).to_text()[..]);
    assert_eq!(v["upgrades"], serde_json::Value::Array(vec![serde_json::Value::String("websocket".to_string())]));
    assert_eq!(h.log, vec!["connect 5"]);
    let q = format!("EIO=4&transport=polling&sid={}", sid).into_bytes();
    let posted = engine::polling_post(&mut r, &mut h, &q, b"4hello", 10);
    assert_eq!(posted, HttpReply { status: 200, body: b"ok".to_vec() });
    assert_eq!(engine::polling_get(&mut r, &mut h, &q, Sid::new(99), 20), ok(b"4hello"));
    assert_eq!(r.get(Sid::new(5)).unwrap().data, 1);
    assert_eq!(r.len(), 1);
}

#[test]
fn a_post_carries_several_packets_in_order() {
    let mut r: Registry<u32> = Registry::new(EngineIoConfig::default());
    let mut h = Echo::default();
    handshake(&mut r, &mut h, 5);
    let q = query("polling", 5);
    let posted = engine::polling_post(&mut r, &mut h, &q, b"4one\x1e6\x1ebAQID\x1e4two", 10);
    assert_eq!(posted.status, 200);
    assert_eq!(engine::polling_get(&mut r, &mut h, &q, Sid::new(99), 20), ok(b"4one\x1ebAQID\x1e4two"));
    assert_eq!(r.get(Sid::new(5)).unwrap().data, 3);
}

#[test]
fn a_long_poll_waits_for_data() {
    let mut r: Registry<u32> = Registry::new(EngineIoConfig::default());
    let mut h = Echo::default();
    handshake(&mut r, &mut h, 5);
    let q = query("polling", 5);
    assert_eq!(engine::polling_get(&mut r, &mut h, &q, Sid::new(99), 20), GetOutcome::Wait(Sid::new(5)));
    assert_eq!(engine::poll_flush::<Echo>(&mut r, Sid::new(5)), None);
    engine::polling_post(&mut r, &mut h, &q, b"4late", 30);
    assert_eq!(engine::poll_flush::<Echo>(&mut r, Sid::new(5)), Some(b"4late".to_vec()));
    assert_eq!(engine::poll_flush::<Echo>(&mut r, Sid::new(5)), None);
    assert_eq!(engine::poll_expire::<Echo>(&mut r, Sid::new(5)), None);
    assert_eq!(engine::polling_get(&mut r, &mut h, &q, Sid::new(99), 40), GetOutcome::Wait(Sid::new(5)));
    assert_eq!(engine::poll_expire::<Echo>(&mut r, Sid::new(5)), Some(b"6".to_vec()));
    assert_eq!(engine::poll_expire::<Echo>(&mut r, Sid::new(5)), None);
    assert_eq!(engine::poll_expire::<Echo>(&mut r, Sid::new(6)), None);
    assert_eq!(engine::poll_flush::<Echo>(&mut r, Sid::new(6)), None);
}

#[test]
fn upgrade_through_the_endpoint() {
    let mut r: Registry<u32> = Registry::new(EngineIoConfig::default());
    let mut h = Echo::default();
    handshake(&mut r, &mut h, 5);
    let polling = query("polling", 5);
    let websocket = query("websocket", 5);
    assert_eq!(engine::ws_open(&mut r, &mut h, &websocket, Sid::new(99), 1), WsOutcome::Probe(Sid::new(5)));
    assert_eq!(r.get(Sid::new(5)).unwrap().session.state(), SessionState::Upgrading);
    // a long-poll is in flight
    assert_eq!(engine::polling_get(&mut r, &mut h, &polling, Sid::new(99), 2), GetOutcome::Wait(Sid::new(5)));
    assert_eq!(
        engine::ws_probe::<Echo>(&mut r, Sid::new(5), Frame::Text(b"2probe".to_vec())),
        ProbeReply::Pong(Frame::Text(b"3probe".to_vec()))
    );
    assert_eq!(engine::ws_probe::<Echo>(&mut r, Sid::new(5), Frame::Text(b"5".to_vec())), ProbeReply::Upgraded(true));
    // ... which returns with a noop
    assert_eq!(EnginePacket::Noop.encode(), b"6".to_vec());
    assert_eq!(r.get(Sid::new(5)).unwrap().session.transport(), TransportType::Websocket);
    // the next emit goes over the websocket
    assert!(engine::ws_frame(&mut r, &mut h, Sid::new(5), Frame::Text(b"4over ws".to_vec()), 3));
    assert_eq!(engine::ws_next::<Echo>(&mut r, Sid::new(5)), Some(Frame::Text(b"4over ws".to_vec())));
    assert_eq!(engine::ws_next::<Echo>(&mut r, Sid::new(5)), None);
    assert!(engine::ws_frame(&mut r, &mut h, Sid::new(5), Frame::Binary(vec![1, 2]), 3));
    assert_eq!(engine::ws_next::<Echo>(&mut r, Sid::new(5)), Some(Frame::Binary(vec![1, 2])));
    // and polling is over
    assert_eq!(
        engine::polling_get(&mut r, &mut h, &polling, Sid::new(99), 4),
        GetOutcome::Reply(refused(RequestError::BadRequest))
    );
    assert_eq!(engine::polling_post(&mut r, &mut h, &polling, b"4x", 4), refused(RequestError::BadRequest));
    assert_eq!(engine::poll_flush::<Echo>(&mut r, Sid::new(5)), None);
}

#[test]
fn a_probe_that_goes_wrong_leaves_the_session_on_polling() {
    let mut r: Registry<u32> = Registry::new(EngineIoConfig::default());
    let mut h = Echo::default();
    handshake(&mut r, &mut h, 5);
    let websocket = query("websocket", 5);
    assert_eq!(engine::ws_probe::<Echo>(&mut r, Sid::new(5), Frame::Text(b"2probe".to_vec())), ProbeReply::Drop);
    assert_eq!(engine::ws_open(&mut r, &mut h, &websocket, Sid::new(99), 1), WsOutcome::Probe(Sid::new(5)));
    // a second websocket while one probes
    assert_eq!(
        engine::ws_open(&mut r, &mut h, &websocket, Sid::new(99), 1),
        WsOutcome::Refused(refused(RequestError::BadRequest))
    );
    assert_eq!(engine::ws_probe::<Echo>(&mut r, Sid::new(5), Frame::Text(b"4hello".to_vec())), ProbeReply::Drop);
    assert_eq!(r.get(Sid::new(5)).unwrap().session.state(), SessionState::Open);
    assert_eq!(engine::ws_open(&mut r, &mut h, &websocket, Sid::new(99), 1), WsOutcome::Probe(Sid::new(5)));
    assert_eq!(engine::ws_probe::<Echo>(&mut r, Sid::new(5), Frame::Text(b"not a packet".to_vec())), ProbeReply::Drop);
    assert_eq!(engine::ws_probe::<Echo>(&mut r, Sid::new(6), Frame::Text(b"2probe".to_vec())), ProbeReply::Drop);
    assert_eq!(r.get(Sid::new(5)).unwrap().session.transport(), TransportType::Polling);
    // frames of a websocket that is not the transport are not taken
    assert!(!engine::ws_frame(&mut r, &mut h, Sid::new(5), Frame::Text(b"4x".to_vec()), 3));
    assert!(!engine::ws_frame(&mut r, &mut h, Sid::new(6), Frame::Text(b"4x".to_vec()), 3));
    assert_eq!(engine::ws_next::<Echo>(&mut r, Sid::new(5)), None);
}

#[test]
fn a_session_can_start_on_a_websocket() {
    let mut r: Registry<u32> = Registry::new(EngineIoConfig::default());
    let mut h = Echo::default();
    let first = match engine::ws_open(&mut r, &mut h, b"EIO=4&transport=websocket", Sid::new(8), 0) {
        WsOutcome::Session(sid, first) => {
            assert_eq!(sid, Sid::new(8));
            first
        },
        other => panic!("no session: {:?}", other),
    };
    let mut expected = b"0".to_vec();
    expected.extend(socketioxide::engine_packet::handshake(Sid::new(8), false, 25000, 20000, 1000000));
    assert_eq!(first, Frame::Text(expected));
    assert_eq!(h.log, vec!["connect 8"]);
    assert_eq!(r.get(Sid::new(8)).unwrap().session.state(), SessionState::Open);
    assert!(engine::ws_frame(&mut r, &mut h, Sid::new(8), Frame::Text(b"4hi".to_vec()), 1));
    assert_eq!(engine::ws_next::<Echo>(&mut r, Sid::new(8)), Some(Frame::Text(b"4hi".to_vec())));
    // the id is taken now, and a handshake for polling is no websocket
    assert_eq!(
        engine::ws_open(&mut r, &mut h, b"EIO=4&transport=websocket", Sid::new(8), 0),
        WsOutcome::Refused(refused(RequestError::BadRequest))
    );
    assert_eq!(
        engine::ws_open(&mut r, &mut h, b"EIO=4&transport=polling", Sid::new(9), 0),
        WsOutcome::Refused(refused(RequestError::BadRequest))
    );
    assert_eq!(
        engine::ws_open(&mut r, &mut h, &query("websocket", 8), Sid::new(9), 0),
        WsOutcome::Refused(refused(RequestError::BadRequest))
    );
    assert_eq!(
        engine::polling_get(&mut r, &mut h, b"EIO=4&transport=websocket", Sid::new(9), 0),
        GetOutcome::Reply(refused(RequestError::BadRequest))
    );
    assert_eq!(r.len(), 1);
}

#[test]
fn heartbeat_timeout_through_the_registry() {
    let mut c = EngineIoConfig::default();
    c.ping_interval = 300;
    c.ping_timeout = 200;
    let mut r: Registry<u32> = Registry::new(c);
    let mut h = Echo::default();
    handshake(&mut r, &mut h, 5);
    assert!(!engine::heartbeat(&mut r, &mut h, Sid::new(5), 299));
    assert!(!engine::heartbeat(&mut r, &mut h, Sid::new(5), 300));
    assert_eq!(engine::polling_get(&mut r, &mut h, &query("polling", 5), Sid::new(99), 301), ok(b"2"));
    assert!(!engine::heartbeat(&mut r, &mut h, Sid::new(5), 499));
    // the pong is withheld
    assert!(engine::heartbeat(&mut r, &mut h, Sid::new(5), 500));
    let s = &r.get(Sid::new(5)).unwrap().session;
    assert_eq!(s.state(), SessionState::Closed);
    assert_eq!(s.close_reason(), Some(DisconnectReason::HeartbeatTimeout));
    assert_eq!(h.log, vec!["connect 5", "disconnect 5 HeartbeatTimeout"]);
    assert!(!engine::heartbeat(&mut r, &mut h, Sid::new(5), 900));
    assert!(!engine::heartbeat(&mut r, &mut h, Sid::new(6), 900));
    assert_eq!(h.log.len(), 2);
    // a closed session is unknown to requests, and is swept
    assert_eq!(
        engine::polling_get(&mut r, &mut h, &query("polling", 5), Sid::new(99), 901),
        GetOutcome::Reply(refused(RequestError::UnknownSid))
    );
    assert_eq!(engine::polling_post(&mut r, &mut h, &query("polling", 5), b"4x", 901), refused(RequestError::UnknownSid));
    assert_eq!(r.sweep().len(), 1);
    assert_eq!(r.len(), 0);
}

#[test]
fn multiple_polling_gets() {
    let mut r: Registry<u32> = Registry::new(EngineIoConfig::default());
    let mut h = Echo::default();
    handshake(&mut r, &mut h, 5);
    let q = query("polling", 5);
    assert_eq!(engine::polling_get(&mut r, &mut h, &q, Sid::new(99), 1), GetOutcome::Wait(Sid::new(5)));
    // the second GET returns at once
    assert_eq!(
        engine::polling_get(&mut r, &mut h, &q, Sid::new(99), 2),
        GetOutcome::Reply(refused(RequestError::BadRequest))
    );
    let s = &r.get(Sid::new(5)).unwrap().session;
    assert_eq!(s.close_reason(), Some(DisconnectReason::MultipleHttpPollingError));
    assert!(!s.is_live());
    assert_eq!(h.log, vec!["connect 5", "disconnect 5 MultipleHttpPollingError"]);
    // and so does the first, with the close packet
    assert_eq!(engine::poll_flush::<Echo>(&mut r, Sid::new(5)), Some(b"1".to_vec()));
    assert!(r.get(Sid::new(5)).unwrap().session.is_closed());
}

#[test]
fn requests_that_are_turned_away_change_nothing() {
    let mut r: Registry<u32> = Registry::new(EngineIoConfig::default());
    let mut h = Echo::default();
    assert_eq!(
        engine::polling_get(&mut r, &mut h, b"transport=polling", Sid::new(1), 0),
        GetOutcome::Reply(HttpReply { status: 400, body: b"{\"code\":0,\"message\":\"Transport unknown\"}".to_vec() })
    );
    assert_eq!(
        engine::polling_get(&mut r, &mut h, &query("polling", 1), Sid::new(1), 0),
        GetOutcome::Reply(HttpReply { status: 400, body: b"{\"code\":1,\"message\":\"Session ID unknown\"}".to_vec() })
    );
    assert_eq!(
        engine::polling_post(&mut r, &mut h, b"EIO=4&transport=polling", b"4x", 0),
        HttpReply { status: 400, body: b"{\"code\":2,\"message\":\"Bad handshake method\"}".to_vec() }
    );
    assert_eq!(
        engine::ws_open(&mut r, &mut h, b"EIO=9&transport=websocket", Sid::new(1), 0),
        WsOutcome::Refused(refused(RequestError::UnknownTransport))
    );
    assert_eq!(engine::refuse(RequestError::Forbidden), HttpReply { status: 403, body: b"{\"code\":4,\"message\":\"Forbidden\"}".to_vec() });
    assert_eq!(r.len(), 0);
    assert!(h.log.is_empty());
    handshake(&mut r, &mut h, 1);
    // the id of a handshake must be fresh
    assert_eq!(
        engine::polling_get(&mut r, &mut h, b"EIO=4&transport=polling", Sid::new(1), 0),
        GetOutcome::Reply(refused(RequestError::BadRequest))
    );
    assert_eq!(
        engine::polling_get(&mut r, &mut h, &query("websocket", 1), Sid::new(2), 0),
        GetOutcome::Reply(refused(RequestError::BadRequest))
    );
    assert_eq!(r.len(), 1);
    assert_eq!(h.log.len(), 1);
}

#[test]
fn a_body_that_does_not_decode_closes_the_session() {
    let mut r: Registry<u32> = Registry::new(EngineIoConfig::default());
    let mut h = Echo::default();
    handshake(&mut r, &mut h, 5);
    let q = query("polling", 5);
    assert_eq!(engine::polling_post(&mut r, &mut h, &q, b"4ok\x1e9bad", 1), refused(RequestError::BadRequest));
    let s = &r.get(Sid::new(5)).unwrap().session;
    assert_eq!(s.close_reason(), Some(DisconnectReason::PacketParsingError));
    // nothing of the body was handled
    assert_eq!(r.get(Sid::new(5)).unwrap().data, 0);
    assert_eq!(h.log, vec!["connect 5", "disconnect 5 PacketParsingError"]);
    assert_eq!(engine::polling_get(&mut r, &mut h, &q, Sid::new(99), 2), ok(b"1"));
    // on a websocket too
    let mut r: Registry<u32> = Registry::new(EngineIoConfig::default());
    engine::ws_open(&mut r, &mut h, b"EIO=4&transport=websocket", Sid::new(8), 0);
    assert!(engine::ws_frame(&mut r, &mut h, Sid::new(8), Frame::Text(b"9".to_vec()), 1));
    assert_eq!(r.get(Sid::new(8)).unwrap().session.close_reason(), Some(DisconnectReason::PacketParsingError));
    assert_eq!(engine::ws_next::<Echo>(&mut r, Sid::new(8)), Some(Frame::Text(b"1".to_vec())));
    assert!(r.get(Sid::new(8)).unwrap().session.is_closed());
}

#[test]
fn the_end_of_the_transport_ends_the_session() {
    let mut r: Registry<u32> = Registry::new(EngineIoConfig::default());
    let mut h = Echo::default();
    engine::ws_open(&mut r, &mut h, b"EIO=4&transport=websocket", Sid::new(8), 0);
    engine::ws_frame(&mut r, &mut h, Sid::new(8), Frame::Text(b"4unread".to_vec()), 1);
    assert!(engine::transport_closed(&mut r, &mut h, Sid::new(8), DisconnectReason::TransportError));
    assert!(!engine::transport_closed(&mut r, &mut h, Sid::new(9), DisconnectReason::TransportError));
    let s = &r.get(Sid::new(8)).unwrap().session;
    assert!(s.is_closed());
    assert_eq!(s.close_reason(), Some(DisconnectReason::TransportError));
    assert_eq!(s.pending(), 0);
    assert_eq!(h.log, vec!["connect 8", "disconnect 8 TransportError"]);
    assert!(engine::transport_closed(&mut r, &mut h, Sid::new(8), DisconnectReason::TransportClose));
    assert_eq!(r.get(Sid::new(8)).unwrap().session.close_reason(), Some(DisconnectReason::TransportError));
    assert_eq!(h.log.len(), 2);
    let mut r: Registry<u32> = Registry::new(EngineIoConfig::default());
    handshake(&mut r, &mut h, 5);
    assert!(engine::transport_closed(&mut r, &mut h, Sid::new(5), DisconnectReason::TransportClose));
    let s = &r.get(Sid::new(5)).unwrap().session;
    assert!(s.is_closed());
    assert_eq!(s.close_reason(), Some(DisconnectReason::TransportClose));
}

#[test]
fn a_close_packet_from_the_peer_ends_the_session() {
    let mut s = Session::new(Sid::new(1), socketioxide::config::EngineVersion::V4, TransportType::Polling, &EngineIoConfig::default(), 0);
    let mut h = Echo::default();
    let mut d = 0u32;
    dispatch(&mut h, &mut s, &mut d, EnginePacket::Noop, 1);
    assert!(h.log.is_empty());
    dispatch(&mut h, &mut s, &mut d, EnginePacket::Message(b"m".to_vec()), 1);
    assert_eq!(d, 1);
    dispatch(&mut h, &mut s, &mut d, EnginePacket::Close, 1);
    assert_eq!(h.log, vec!["disconnect 1 TransportClose"]);
    dispatch(&mut h, &mut s, &mut d, EnginePacket::Message(b"m".to_vec()), 1);
    dispatch(&mut h, &mut s, &mut d, EnginePacket::Close, 1);
    assert_eq!(d, 1);
    assert_eq!(h.log.len(), 1);
}

type Callback = fn(Sid, Vec<u8>) -> Result<(), Vec<u8>>;

fn accept(_: Sid, _: Vec<u8>) -> Result<(), Vec<u8>> {
    Ok(())
}

#[test]
fn socket_io_over_the_endpoint() {
    let mut client: Client<LocalAdapter, Callback> = Client::new(Arc::new(SocketIoConfig::default()));
    client.add_ns("/chat".to_string(), accept);
    let mut r: Registry<SocketData> = Registry::new(EngineIoConfig::default());
    let body = match engine::polling_get(&mut r, &mut client, b"EIO=4&transport=polling", Sid::new(3), 0) {
        GetOutcome::Reply(reply) => reply.body,
        other => panic!("no handshake: {:?}", other),
    };
    assert_eq!(body[0], b'0');
    assert_eq!(client.take_notices(), vec![Notice::ConnectTimer { sid: Sid::new(3), after: 45000 }]);
    let q = query("polling", 3);
    // a namespace nobody registered
    assert_eq!(engine::polling_post(&mut r, &mut client, &q, b"40/nope,", 1).status, 200);
    assert_eq!(
        engine::polling_get(&mut r, &mut client, &q, Sid::new(99), 2),
        ok(b"44/nope,{\"message\":\"Invalid namespace\"}")
    );
    assert!(r.get(Sid::new(3)).unwrap().session.is_live());
    assert!(r.get(Sid::new(3)).unwrap().data.connect_timer);
    // connect, then a binary event over the upgraded transport
    engine::polling_post(&mut r, &mut client, &q, b"40/chat,", 3);
    assert_eq!(
        engine::polling_get(&mut r, &mut client, &q, Sid::new(99), 4),
        ok(b"40/chat,{\"sid\":\"AAAAAAAAAAAAAAAD\"}")
    );
    assert!(!r.get(Sid::new(3)).unwrap().data.connect_timer);
    assert_eq!(engine::ws_open(&mut r, &mut client, &query("websocket", 3), Sid::new(99), 5), WsOutcome::Probe(Sid::new(3)));
    engine::ws_probe::<Client<LocalAdapter, Callback>>(&mut r, Sid::new(3), Frame::Text(b"2probe".to_vec()));
    assert_eq!(
        engine::ws_probe::<Client<LocalAdapter, Callback>>(&mut r, Sid::new(3), Frame::Text(b"5".to_vec())),
        ProbeReply::Upgraded(false)
    );
    let header = b"451-/chat,[\"img\",{\"_placeholder\":true,\"num\":0}]".to_vec();
    assert!(engine::ws_frame(&mut r, &mut client, Sid::new(3), Frame::Text(header), 6));
    assert!(engine::ws_frame(&mut r, &mut client, Sid::new(3), Frame::Binary(vec![0xDE, 0xAD, 0xBE, 0xEF]), 6));
    assert_eq!(
        client.take_notices(),
        vec![Notice::Event {
            ns: b"/chat".to_vec(),
            sid: Sid::new(3),
            data: b"[\"img\",{\"_placeholder\":true,\"num\":0}]".to_vec(),
            bin: vec![vec![0xDE, 0xAD, 0xBE, 0xEF]],
            ack: None
        }]
    );
    // a binary frame that nothing waits for
    assert!(engine::ws_frame(&mut r, &mut client, Sid::new(3), Frame::Binary(vec![1]), 7));
    let entry = r.get(Sid::new(3)).unwrap();
    assert_eq!(entry.session.close_reason(), Some(DisconnectReason::PacketParsingError));
    assert_eq!(
        client.take_notices(),
        vec![Notice::Disconnected {
            ns: b"/chat".to_vec(),
            sid: Sid::new(3),
            reason: SocketCloseReason::Engine(DisconnectReason::PacketParsingError)
        }]
    );
    assert!(!client.get_ns("/chat").unwrap().has_socket(Sid::new(3)));
}

#[test]
fn the_layer_holds_a_handler_and_a_configuration() {
    let layer = EngineIoLayer::new(Echo::default());
    assert_eq!(layer.config(), &EngineIoConfig::default());
    assert!(layer.handler().log.is_empty());
    let mut c = EngineIoConfig::default();
    c.ping_interval = 300;
    c.req_path = "/custom".to_string();
    let mut h = Echo::default();
    h.log.push("mine".to_string());
    let layer = EngineIoLayer::from_config(h, c.clone());
    assert_eq!(layer.config(), &c);
    assert_eq!(layer.handler().log, vec!["mine"]);
    let (h, config) = layer.into_parts();
    assert_eq!(config.req_path, "/custom");
    assert_eq!(h.log.len(), 1);
}
