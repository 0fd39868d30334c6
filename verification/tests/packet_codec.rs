use socketioxide::errors::DisconnectReason;
use socketioxide::errors::Error;
use socketioxide::packet::BinaryPacket;
use socketioxide::packet::Packet;
use socketioxide::packet::PacketData;
use socketioxide::packet::ProtocolVersion;
use socketioxide::sid::Sid;

fn packet(ns: &[u8], inner: PacketData) -> Packet {
    Packet { inner, ns: ns.to_vec() }
}

fn round_trip(p: &Packet) {
    let text = p.encode().unwrap();
    assert_eq!(&Packet::decode(&text).unwrap(), p);
}

#[test]
fn decode_plain_event() {
    let p = Packet::decode(b"2[\"hello\",1]").unwrap();
    assert_eq!(p, packet(b"/", PacketData::Event(b"[\"hello\",1]".to_vec(), None)));
}

#[test]
fn decode_event_with_namespace_and_ack() {
    let p = Packet::decode(b"2/chat,12[\"a\"]").unwrap();
    assert_eq!(p, packet(b"/chat", PacketData::Event(b"[\"a\"]".to_vec(), Some(12))));
    let p = Packet::decode(b"27[\"a\"]").unwrap();
    assert_eq!(p, packet(b"/", PacketData::Event(b"[\"a\"]".to_vec(), Some(7))));
}

#[test]
fn decode_connect() {
    assert_eq!(Packet::decode(b"0").unwrap(), packet(b"/", PacketData::Connect(None)));
    assert_eq!(Packet::decode(b"0/nope,").unwrap(), packet(b"/nope", PacketData::Connect(None)));
    assert_eq!(Packet::decode(b"0/nope").unwrap(), packet(b"/nope", PacketData::Connect(None)));
    assert_eq!(
        Packet::decode(b"0/admin,{\"token\":\"123\"}").unwrap(),
        packet(b"/admin", PacketData::Connect(Some(b"{\"token\":\"123\"}".to_vec())))
    );
    assert_eq!(
        Packet::decode(b"0{\"token\":\"123\"}").unwrap(),
        packet(b"/", PacketData::Connect(Some(b"{\"token\":\"123\"}".to_vec())))
    );
}

#[test]
fn decode_disconnect_ack_and_connect_error() {
    assert_eq!(Packet::decode(b"1").unwrap(), packet(b"/", PacketData::Disconnect));
    assert_eq!(Packet::decode(b"1/admin,").unwrap(), packet(b"/admin", PacketData::Disconnect));
    assert_eq!(
        Packet::decode(b"3/admin,456[]").unwrap(),
        packet(b"/admin", PacketData::EventAck(b"[]".to_vec(), 456))
    );
    assert_eq!(
        Packet::decode(b"4/admin,{\"message\":\"Not authorized\"}").unwrap(),
        packet(b"/admin", PacketData::ConnectError(b"{\"message\":\"Not authorized\"}".to_vec()))
    );
    assert_eq!(
        Packet::decode(b"4\"Not authorized\"").unwrap(),
        packet(b"/", PacketData::ConnectError(b"\"Not authorized\"".to_vec()))
    );
}

#[test]
fn decode_binary_headers() {
    let text = b"51-/chat,[\"img\",{\"_placeholder\":true,\"num\":0}]";
    let bin = BinaryPacket {
        data: b"[\"img\",{\"_placeholder\":true,\"num\":0}]".to_vec(),
        bin: vec![],
        payload_count: 1,
    };
    assert_eq!(Packet::decode(text).unwrap(), packet(b"/chat", PacketData::BinaryEvent(bin, None)));
    let bin = BinaryPacket { data: b"[\"x\"]".to_vec(), bin: vec![], payload_count: 12 };
    assert_eq!(
        Packet::decode(b"512-3[\"x\"]").unwrap(),
        packet(b"/", PacketData::BinaryEvent(bin, Some(3)))
    );
    let bin = BinaryPacket { data: b"[{\"_placeholder\":true,\"num\":0}]".to_vec(), bin: vec![], payload_count: 1 };
    assert_eq!(
        Packet::decode(b"61-/admin,456[{\"_placeholder\":true,\"num\":0}]").unwrap(),
        packet(b"/admin", PacketData::BinaryAck(bin, 456))
    );
}

#[test]
fn invalid_packet_type_is_reported() {
    assert_eq!(Packet::decode(b""), Err(Error::InvalidPacketType));
    assert_eq!(Packet::decode(b"7[]"), Err(Error::InvalidPacketType));
    assert_eq!(Packet::decode(b"a"), Err(Error::InvalidPacketType));
    assert_eq!(Packet::decode(b"/"), Err(Error::InvalidPacketType));
    // an ack packet needs its id
    assert_eq!(Packet::decode(b"3[]"), Err(Error::InvalidPacketType));
    assert_eq!(Packet::decode(b"61-[]"), Err(Error::InvalidPacketType));
    // a binary packet needs its attachment count and the dash
    assert_eq!(Packet::decode(b"5[\"x\"]"), Err(Error::InvalidPacketType));
    assert_eq!(Packet::decode(b"51[\"x\"]"), Err(Error::InvalidPacketType));
    assert_eq!(Packet::decode(b"51"), Err(Error::InvalidPacketType));
    assert_eq!(Packet::decode(b"5-[\"x\"]"), Err(Error::InvalidPacketType));
    // connect, disconnect and connect error take no ack id
    assert_eq!(Packet::decode(b"012"), Err(Error::InvalidPacketType));
    assert_eq!(Packet::decode(b"1/admin,3"), Err(Error::InvalidPacketType));
    assert_eq!(Packet::decode(b"45{}"), Err(Error::InvalidPacketType));
    // a disconnect takes no payload
    assert_eq!(Packet::decode(b"1[]"), Err(Error::InvalidPacketType));
    // numbers that do not fit
    assert_eq!(Packet::decode(b"218446744073709551616[]"), Err(Error::InvalidPacketType));
    assert_eq!(Packet::decode(b"599999999999999999999999-[]"), Err(Error::InvalidPacketType));
}

#[test]
fn largest_ack_id_is_read() {
    assert_eq!(
        Packet::decode(b"218446744073709551615[]").unwrap(),
        packet(b"/", PacketData::Event(b"[]".to_vec(), Some(u64::MAX)))
    );
}

#[test]
fn invalid_namespace_is_reported() {
    assert_eq!(Packet::decode(b"0nope,"), Err(Error::InvalidNamespace));
    assert_eq!(Packet::decode(b"2chat,[\"a\"]"), Err(Error::InvalidNamespace));
    assert_eq!(Packet::decode(b"51-chat,[\"a\"]"), Err(Error::InvalidNamespace));
    assert_eq!(Packet::decode(b"2true"), Err(Error::InvalidNamespace));
    assert_eq!(packet(b"chat", PacketData::Disconnect).encode(), Err(Error::InvalidNamespace));
    assert_eq!(packet(b"", PacketData::Disconnect).encode(), Err(Error::InvalidNamespace));
    assert_eq!(packet(b"/a,b", PacketData::Disconnect).encode(), Err(Error::InvalidNamespace));
}

#[test]
fn invalid_json_is_reported() {
    assert_eq!(Packet::decode(b"2"), Err(Error::InvalidJson));
    assert_eq!(Packet::decode(b"2/chat,"), Err(Error::InvalidJson));
    assert_eq!(Packet::decode(b"2[\"a\""), Err(Error::InvalidJson));
    assert_eq!(Packet::decode(b"2[\"a\"]]"), Err(Error::InvalidJson));
    assert_eq!(Packet::decode(b"2{\"a\":1}"), Err(Error::InvalidJson));
    assert_eq!(Packet::decode(b"2\"a\""), Err(Error::InvalidJson));
    assert_eq!(Packet::decode(b"0[1]"), Err(Error::InvalidJson));
    assert_eq!(Packet::decode(b"0{\"a\":}"), Err(Error::InvalidJson));
    assert_eq!(Packet::decode(b"4"), Err(Error::InvalidJson));
    assert_eq!(Packet::decode(b"4[1]"), Err(Error::InvalidJson));
    assert_eq!(Packet::decode(b"312"), Err(Error::InvalidJson));
    assert_eq!(Packet::decode(b"51-[\"a\",]"), Err(Error::InvalidJson));
    let e = packet(b"/", PacketData::Event(b"[1,".to_vec(), None));
    assert_eq!(e.encode(), Err(Error::InvalidJson));
    let e = packet(b"/", PacketData::Event(b"{}".to_vec(), None));
    assert_eq!(e.encode(), Err(Error::InvalidJson));
    let e = packet(b"/", PacketData::Connect(Some(b"null".to_vec())));
    assert_eq!(e.encode(), Err(Error::InvalidJson));
}

#[test]
fn json_is_judged_by_the_json_parser() {
    // the same bytes, one closing bracket apart
    assert!(Packet::decode(b"2[\"a\",{\"b\":[1,2,{\"c\":null}]}]").is_ok());
    assert_eq!(Packet::decode(b"2[\"a\",{\"b\":[1,2,{\"c\":null}]}"), Err(Error::InvalidJson));
    assert_eq!(Packet::decode(b"2[\"a\",{\"b\":[1,2,{\"c\":nul}]}]"), Err(Error::InvalidJson));
    assert_eq!(Packet::decode(b"2[01]"), Err(Error::InvalidJson));
}

#[test]
fn too_many_attachments_is_reported() {
    let bin = BinaryPacket { data: b"[\"x\"]".to_vec(), bin: vec![vec![1], vec![2]], payload_count: 1 };
    let p = packet(b"/", PacketData::BinaryEvent(bin, None));
    assert_eq!(p.encode(), Err(Error::TooManyAttachments));
}

#[test]
fn encode_writes_the_documented_form() {
    let sid = Sid::new(0);
    let p = Packet::connect(b"/".to_vec(), sid, ProtocolVersion::V5);
    assert_eq!(p.encode().unwrap(), b"0{\"sid\":\"AAAAAAAAAAAAAAAA\"}".to_vec());
    let p = Packet::connect(b"/admin".to_vec(), Sid::new(65), ProtocolVersion::V5);
    assert_eq!(p.encode().unwrap(), b"0/admin,{\"sid\":\"AAAAAAAAAAAAAABB\"}".to_vec());
    let p = Packet::connect(b"/".to_vec(), sid, ProtocolVersion::V4);
    assert_eq!(p.encode().unwrap(), b"0".to_vec());
    let p = Packet::connect(b"/admin".to_vec(), sid, ProtocolVersion::V4);
    assert_eq!(p.encode().unwrap(), b"0/admin,".to_vec());
    let p = Packet::invalid_namespace(b"/nope".to_vec());
    assert_eq!(p.encode().unwrap(), b"4/nope,{\"message\":\"Invalid namespace\"}".to_vec());
    let p = Packet::disconnect(b"/admin".to_vec());
    assert_eq!(p.encode().unwrap(), b"1/admin,".to_vec());
    let p = packet(b"/chat", PacketData::Event(b"[\"a\"]".to_vec(), Some(12)));
    assert_eq!(p.encode().unwrap(), b"2/chat,12[\"a\"]".to_vec());
    let p = packet(b"/", PacketData::EventAck(b"[]".to_vec(), 0));
    assert_eq!(p.encode().unwrap(), b"30[]".to_vec());
    let bin = BinaryPacket::outgoing(
        b"[\"img\",{\"_placeholder\":true,\"num\":0}]".to_vec(),
        vec![vec![0xDE, 0xAD, 0xBE, 0xEF]],
    );
    let p = packet(b"/chat", PacketData::BinaryEvent(bin, None));
    assert_eq!(
        p.encode().unwrap(),
        b"51-/chat,[\"img\",{\"_placeholder\":true,\"num\":0}]".to_vec()
    );
    let bin = BinaryPacket::outgoing(b"[]".to_vec(), vec![]);
    let p = packet(b"/", PacketData::BinaryAck(bin, 9));
    assert_eq!(p.encode().unwrap(), b"60-9[]".to_vec());
}

#[test]
fn every_variant_survives_a_round_trip() {
    round_trip(&packet(b"/", PacketData::Connect(None)));
    round_trip(&packet(b"/admin", PacketData::Connect(None)));
    round_trip(&packet(b"/", PacketData::Connect(Some(b"{\"t\":[1,{\"u\":\"v\"}]}".to_vec()))));
    round_trip(&packet(b"/a/b", PacketData::Connect(Some(b"{}".to_vec()))));
    round_trip(&packet(b"/", PacketData::Disconnect));
    round_trip(&packet(b"/admin", PacketData::Disconnect));
    round_trip(&packet(b"/", PacketData::Event(b"[\"e\",{\"a\":[1,[2,[3]]]}]".to_vec(), None)));
    round_trip(&packet(b"/9", PacketData::Event(b"[\"e\"]".to_vec(), Some(0))));
    round_trip(&packet(b"/admin", PacketData::Event(b"[\"e\"]".to_vec(), Some(u64::MAX))));
    round_trip(&packet(b"/", PacketData::EventAck(b"[1,2]".to_vec(), 54)));
    round_trip(&packet(b"/admin", PacketData::EventAck(b"[]".to_vec(), 1)));
    round_trip(&packet(b"/", PacketData::ConnectError(b"{\"message\":\"no\"}".to_vec())));
    round_trip(&packet(b"/admin", PacketData::ConnectError(b"\"no\"".to_vec())));
    let header = |data: &[u8], n: usize| BinaryPacket { data: data.to_vec(), bin: vec![], payload_count: n };
    round_trip(&packet(b"/", PacketData::BinaryEvent(header(b"[\"e\"]", 0), None)));
    round_trip(&packet(
        b"/admin",
        PacketData::BinaryEvent(
            header(b"[{\"_placeholder\":true,\"num\":1},[{\"deep\":{\"_placeholder\":true,\"num\":0}}]]", 2),
            Some(77),
        ),
    ));
    round_trip(&packet(b"/", PacketData::BinaryAck(header(b"[{\"_placeholder\":true,\"num\":0}]", 1), 3)));
    round_trip(&packet(b"/x", PacketData::BinaryAck(header(b"[]", 10), u64::MAX)));
}

#[test]
fn round_trip_of_a_packet_with_attachments_drops_them_from_the_header() {
    let bin = BinaryPacket::outgoing(b"[\"x\"]".to_vec(), vec![vec![1, 2], vec![3]]);
    assert_eq!(bin.payload_count, 2);
    assert!(bin.is_complete());
    let p = packet(b"/chat", PacketData::BinaryEvent(bin, Some(4)));
    let text = p.encode().unwrap();
    assert_eq!(text, b"52-/chat,4[\"x\"]".to_vec());
    let q = Packet::decode(&text).unwrap();
    assert!(q.expects_more());
    let q = q.add_payload(vec![1, 2]);
    assert!(q.expects_more());
    let q = q.add_payload(vec![3]);
    assert!(!q.expects_more());
    assert_eq!(q, p);
}

#[test]
fn binary_packet_counts_its_attachments() {
    let mut bin = BinaryPacket::incoming(b"[]".to_vec(), 2);
    assert!(!bin.is_complete());
    bin.add_payload(vec![1]);
    assert!(!bin.is_complete());
    bin.add_payload(vec![2]);
    assert!(bin.is_complete());
    assert_eq!(bin.bin, vec![vec![1], vec![2]]);
    assert!(BinaryPacket::incoming(b"[]".to_vec(), 0).is_complete());
}

#[test]
fn error_close_reasons() {
    let parsing = Some(DisconnectReason::PacketParsingError);
    assert_eq!(Error::InvalidPacketType.disconnect_reason(), parsing);
    assert_eq!(Error::InvalidJson.disconnect_reason(), parsing);
    assert_eq!(Error::InvalidBase64.disconnect_reason(), parsing);
    assert_eq!(Error::UnexpectedBinary.disconnect_reason(), parsing);
    assert_eq!(Error::MissingAttachments.disconnect_reason(), parsing);
    assert_eq!(Error::TooManyAttachments.disconnect_reason(), parsing);
    assert_eq!(Error::BufferFull.disconnect_reason(), Some(DisconnectReason::TransportError));
    assert_eq!(Error::InvalidNamespace.disconnect_reason(), None);
    assert_eq!(Error::UnknownAckId.disconnect_reason(), None);
    assert_eq!(Error::SocketGone(Sid::new(1)).disconnect_reason(), None);
    assert_eq!(Error::SessionClosed.disconnect_reason(), None);
}

#[test]
fn the_codec_with_the_verdict_handed_in() {
    // whatever the payload holds, the verdict decides
    let unknown = Packet::invalid_namespace(b"/nope".to_vec());
    assert_eq!(unknown.encode_with(true), Ok(b"4/nope,{\"message\":\"Invalid namespace\"}".to_vec()));
    assert_eq!(unknown.encode_with(false), Err(Error::InvalidJson));
    let odd = packet(b"/", PacketData::Event(b"[not json".to_vec(), Some(3)));
    assert_eq!(odd.encode(), Err(Error::InvalidJson));
    assert_eq!(odd.encode_with(true), Ok(b"23[not json".to_vec()));
    assert_eq!(Packet::decode_with(b"23[not json", true), Ok(odd));
    assert_eq!(Packet::decode_with(b"23[1]", false), Err(Error::InvalidJson));
    // the first byte is the codec's own business
    assert_eq!(packet(b"/", PacketData::Event(b"{}".to_vec(), None)).encode_with(true), Err(Error::InvalidJson));
    assert_eq!(Packet::decode_with(b"2{}", true), Err(Error::InvalidJson));
    assert_eq!(Packet::decode_with(b"0/nope,", false), Ok(packet(b"/nope", PacketData::Connect(None))));
    assert_eq!(Packet::decode_with(b"1/nope,", false), Ok(packet(b"/nope", PacketData::Disconnect)));
    assert_eq!(packet(b"nope", PacketData::Disconnect).encode_with(true), Err(Error::InvalidNamespace));
    let header = b"51-/chat,[\"img\",{\"_placeholder\":true,\"num\":0}]";
    let bin = BinaryPacket {
        data: b"[\"img\",{\"_placeholder\":true,\"num\":0}]".to_vec(),
        bin: vec![],
        payload_count: 1,
    };
    let p = packet(b"/chat", PacketData::BinaryEvent(bin, None));
    assert_eq!(Packet::decode_with(header, true), Ok(p.clone()));
    assert_eq!(p.encode_with(true), Ok(header.to_vec()));
    assert_eq!(
        socketioxide::packet::assemble_with(51, 0, b"/".to_vec(), Some(4), b"[1]".to_vec(), true),
        Ok(packet(b"/", PacketData::EventAck(b"[1]".to_vec(), 4)))
    );
    assert_eq!(
        socketioxide::packet::assemble_with(51, 0, b"/".to_vec(), None, b"[1]".to_vec(), true),
        Err(Error::InvalidPacketType)
    );
}
