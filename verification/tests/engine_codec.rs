use socketioxide::engine_packet::decode_payload;
use socketioxide::engine_packet::encode_payload;
use socketioxide::engine_packet::handshake;
use socketioxide::engine_packet::EnginePacket;
use socketioxide::engine_packet::Frame;
use socketioxide::errors::Error;
use socketioxide::sid::Sid;

#[test]
fn string_forms() {
    assert_eq!(EnginePacket::Open(b"{}".to_vec()).encode(), b"0{}".to_vec());
    assert_eq!(EnginePacket::Close.encode(), b"1".to_vec());
    assert_eq!(EnginePacket::Ping(false).encode(), b"2".to_vec());
    assert_eq!(EnginePacket::Ping(true).encode(), b"2probe".to_vec());
    assert_eq!(EnginePacket::Pong(false).encode(), b"3".to_vec());
    assert_eq!(EnginePacket::Pong(true).encode(), b"3probe".to_vec());
    assert_eq!(EnginePacket::Message(b"hello".to_vec()).encode(), b"4hello".to_vec());
    assert_eq!(EnginePacket::Message(vec![]).encode(), b"4".to_vec());
    assert_eq!(EnginePacket::Upgrade.encode(), b"5".to_vec());
    assert_eq!(EnginePacket::Noop.encode(), b"6".to_vec());
    assert_eq!(EnginePacket::Binary(vec![0xDE, 0xAD, 0xBE, 0xEF]).encode(), b"b3q2+7w==".to_vec());
    assert_eq!(EnginePacket::Binary(vec![]).encode(), b"b".to_vec());
}

#[test]
fn string_forms_read_back() {
    let all = vec![
        EnginePacket::Open(b"{\"sid\":\"x\"}".to_vec()),
        EnginePacket::Close,
        EnginePacket::Ping(false),
        EnginePacket::Ping(true),
        EnginePacket::Pong(false),
        EnginePacket::Pong(true),
        EnginePacket::Message(b"4hello\x1eworld".to_vec()),
        EnginePacket::Message(vec![]),
        EnginePacket::Upgrade,
        EnginePacket::Noop,
        EnginePacket::Binary(vec![0, 1, 2, 3, 254, 255]),
        EnginePacket::Binary(vec![]),
    ];
    for p in all {
        assert_eq!(EnginePacket::decode(&p.encode()), Ok(p.clone()));
        assert_eq!(EnginePacket::from_frame(p.to_frame()), Ok(p));
    }
}

#[test]
fn bad_string_forms_are_refused() {
    assert_eq!(EnginePacket::decode(b""), Err(Error::InvalidPacketType));
    assert_eq!(EnginePacket::decode(b"7"), Err(Error::InvalidPacketType));
    assert_eq!(EnginePacket::decode(b"x"), Err(Error::InvalidPacketType));
    assert_eq!(EnginePacket::decode(b"1x"), Err(Error::InvalidPacketType));
    assert_eq!(EnginePacket::decode(b"5x"), Err(Error::InvalidPacketType));
    assert_eq!(EnginePacket::decode(b"6x"), Err(Error::InvalidPacketType));
    assert_eq!(EnginePacket::decode(b"2prob"), Err(Error::InvalidPacketType));
    assert_eq!(EnginePacket::decode(b"3probes"), Err(Error::InvalidPacketType));
    assert_eq!(EnginePacket::decode(b"0"), Err(Error::InvalidJson));
    assert_eq!(EnginePacket::decode(b"0[]"), Err(Error::InvalidJson));
    assert_eq!(EnginePacket::decode(b"0{\"sid\":"), Err(Error::InvalidJson));
    assert_eq!(EnginePacket::decode(b"bZg"), Err(Error::InvalidBase64));
    assert_eq!(EnginePacket::decode(b"b===="), Err(Error::InvalidBase64));
}

#[test]
fn websocket_frames() {
    assert_eq!(EnginePacket::Message(b"hi".to_vec()).to_frame(), Frame::Text(b"4hi".to_vec()));
    assert_eq!(EnginePacket::Pong(true).to_frame(), Frame::Text(b"3probe".to_vec()));
    assert_eq!(EnginePacket::Binary(vec![1, 2]).to_frame(), Frame::Binary(vec![1, 2]));
    assert_eq!(
        EnginePacket::from_frame(Frame::Binary(vec![0x34])),
        Ok(EnginePacket::Binary(vec![0x34]))
    );
    assert_eq!(
        EnginePacket::from_frame(Frame::Text(b"4".to_vec())),
        Ok(EnginePacket::Message(vec![]))
    );
    assert_eq!(EnginePacket::from_frame(Frame::Text(vec![])), Err(Error::InvalidPacketType));
}

#[test]
fn payload_joins_with_the_record_separator() {
    assert_eq!(encode_payload(&[]), Vec::<u8>::new());
    assert_eq!(encode_payload(&[EnginePacket::Noop]), b"6".to_vec());
    let packets = vec![
        EnginePacket::Message(b"hello".to_vec()),
        EnginePacket::Ping(false),
        EnginePacket::Binary(vec![1, 2, 3]),
        EnginePacket::Message(b"".to_vec()),
    ];
    assert_eq!(encode_payload(&packets), b"4hello\x1e2\x1ebAQID\x1e4".to_vec());
    assert_eq!(decode_payload(b"4hello\x1e2\x1ebAQID\x1e4"), Ok(packets));
}

#[test]
fn payload_is_cut_at_every_separator() {
    assert_eq!(decode_payload(b"4hello"), Ok(vec![EnginePacket::Message(b"hello".to_vec())]));
    assert_eq!(
        decode_payload(b"4\x1e4"),
        Ok(vec![EnginePacket::Message(vec![]), EnginePacket::Message(vec![])])
    );
    assert_eq!(decode_payload(b""), Err(Error::InvalidPacketType));
    assert_eq!(decode_payload(b"4a\x1e"), Err(Error::InvalidPacketType));
    assert_eq!(decode_payload(b"\x1e4a"), Err(Error::InvalidPacketType));
    assert_eq!(decode_payload(b"4a\x1e\x1e4b"), Err(Error::InvalidPacketType));
    assert_eq!(decode_payload(b"4a\x1e0nope\x1e9"), Err(Error::InvalidJson));
    assert_eq!(decode_payload(b"4a\x1ebZ\x1e0nope"), Err(Error::InvalidBase64));
}

#[test]
fn handshake_has_the_documented_wire_form() {
    let sid = Sid::parse(b"AbCdEfGh01234-_z").unwrap();
    assert_eq!(
        handshake(sid, true, 25000, 20000, 1000000),
        b"{\"sid\":\"AbCdEfGh01234-_z\",\"upgrades\":[\"websocket\"],\"pingInterval\":25000,\"pingTimeout\":20000,\"maxPayload\":1000000}".to_vec()
    );
    assert_eq!(
        handshake(Sid::new(0), false, 300, 200, 0),
        b"{\"sid\":\"AAAAAAAAAAAAAAAA\",\"upgrades\":[],\"pingInterval\":300,\"pingTimeout\":200,\"maxPayload\":0}".to_vec()
    );
}

#[test]
fn handshake_is_json_with_the_documented_fields() {
    let text = handshake(Sid::new(12345), true, 25000, 20000, 1000000);
    let v: serde_json::Value = serde_json::from_slice(&text).unwrap();
    assert_eq!(v["sid"].as_str().unwrap().len(), 16);
    assert_eq!(v["upgrades"][0].as_str(), Some("websocket"));
    assert_eq!(v["pingInterval"].as_u64(), Some(25000));
    assert_eq!(v["pingTimeout"].as_u64(), Some(20000));
    assert_eq!(v["maxPayload"].as_u64(), Some(1000000));
    let open = EnginePacket::Open(text);
    assert_eq!(EnginePacket::decode(&open.encode()), Ok(open));
}
