use turnsrv::addr::{IpAddress, TransactionId, TransportAddr};
use turnsrv::attr::{Attribute, DecodeError};
use turnsrv::chandata::ChannelData;
use turnsrv::message::{decode_header, Class, Header, Message, Method};
use stun::message::{Getter, Setter};

fn codec_id() -> TransactionId {
    TransactionId { w0: 0x0102_0304, w1: 0x0506_0708, w2: 0x090a_0b0c }
}

fn codec_header_bytes(typ: u16, len: u16) -> Vec<u8> {
    let mut b = Vec::new();
    b.extend_from_slice(&typ.to_be_bytes());
    b.extend_from_slice(&len.to_be_bytes());
    b.extend_from_slice(&[0x21, 0x12, 0xA4, 0x42]);
    b.extend_from_slice(&[1, 2, 3, 4, 5, 6, 7, 8, 9, 10, 11, 12]);
    b
}

fn codec_message(class: Class, method: Method, attributes: Vec<Attribute>) -> Message {
    Message { class, method, transaction_id: codec_id(), attributes }
}

fn codec_v4(a: u8, b: u8, c: u8, d: u8, port: u16) -> TransportAddr {
    TransportAddr { ip: IpAddress::V4(u32::from_be_bytes([a, b, c, d])), port }
}

#[test]
fn encode_binding_request_exact_bytes() {
    let m = codec_message(Class::Request, Method::Binding, vec![]);
    let bytes = m.encode().unwrap();
    assert_eq!(bytes, codec_header_bytes(0x0001, 0));
    assert_eq!(bytes.len(), 20);
}

#[test]
fn message_type_combines_class_and_method() {
    let cases = [
        (Class::Request, Method::Allocate, 0x0003u16),
        (Class::SuccessResponse, Method::Allocate, 0x0103),
        (Class::ErrorResponse, Method::Allocate, 0x0113),
        (Class::Request, Method::Refresh, 0x0004),
        (Class::Indication, Method::Send, 0x0016),
        (Class::Indication, Method::Data, 0x0017),
        (Class::Request, Method::CreatePermission, 0x0008),
        (Class::SuccessResponse, Method::ChannelBind, 0x0109),
        (Class::SuccessResponse, Method::Binding, 0x0101),
    ];
    for (class, method, typ) in cases {
        let bytes = codec_message(class, method, vec![]).encode().unwrap();
        assert_eq!(&bytes[0..2], &typ.to_be_bytes());
        let back = Message::decode(&bytes).unwrap();
        assert_eq!(back.class, class);
        assert_eq!(back.method, method);
    }
}

#[test]
fn roundtrip_message_with_every_attribute() {
    let v6 = TransportAddr {
        ip: IpAddress::V6(0x2001_0db8, 0x1234_5678, 0x0011_2233, 0x4455_6677),
        port: 32853,
    };
    let m = codec_message(
        Class::Request,
        Method::Allocate,
        vec![
            Attribute::Username(b"alice".to_vec()),
            Attribute::Realm(b"example.org".to_vec()),
            Attribute::Nonce(b"n".to_vec()),
            Attribute::ErrorCode { code: 438, reason: b"Stale Nonce".to_vec() },
            Attribute::UnknownAttributes(vec![0x001A, 0x0022, 0x7FFF]),
            Attribute::ChannelNumber(0x4001),
            Attribute::Lifetime(600),
            Attribute::XorPeerAddress(codec_v4(10, 0, 0, 7, 5000)),
            Attribute::Data(vec![0xde, 0xad, 0xbe, 0xef, 0x01]),
            Attribute::XorRelayedAddress(v6),
            Attribute::RequestedTransport(17),
            Attribute::XorMappedAddress(codec_v4(192, 0, 2, 1, 32853)),
            Attribute::Other { typ: 0x8022, value: b"soft".to_vec() },
            Attribute::MessageIntegrity(vec![7u8; 20]),
        ],
    );
    let bytes = m.encode().unwrap();
    assert_eq!(bytes.len() % 4, 0);
    assert_eq!(Message::decode(&bytes), Ok(m));
}

#[test]
fn roundtrip_empty_values() {
    let m = codec_message(
        Class::Indication,
        Method::Data,
        vec![
            Attribute::Data(vec![]),
            Attribute::Username(vec![]),
            Attribute::UnknownAttributes(vec![]),
            Attribute::ErrorCode { code: 300, reason: vec![] },
            Attribute::ErrorCode { code: 699, reason: vec![] },
        ],
    );
    let bytes = m.encode().unwrap();
    assert_eq!(Message::decode(&bytes), Ok(m));
}

#[test]
fn xor_mapped_address_ipv4_matches_known_vector() {
    let m = Message {
        class: Class::SuccessResponse,
        method: Method::Binding,
        transaction_id: TransactionId { w0: 0xb7e7_a701, w1: 0xbc34_d686, w2: 0xfa87_dfae },
        attributes: vec![Attribute::XorMappedAddress(codec_v4(192, 0, 2, 1, 32853))],
    };
    let bytes = m.encode().unwrap();
    assert_eq!(
        &bytes[20..],
        &[0x00, 0x20, 0x00, 0x08, 0x00, 0x01, 0xa1, 0x47, 0xe1, 0x12, 0xa6, 0x43]
    );
}

#[test]
fn xor_mapped_address_ipv6_matches_known_vector() {
    let m = Message {
        class: Class::SuccessResponse,
        method: Method::Binding,
        transaction_id: TransactionId { w0: 0xb7e7_a701, w1: 0xbc34_d686, w2: 0xfa87_dfae },
        attributes: vec![Attribute::XorMappedAddress(TransportAddr {
            ip: IpAddress::V6(0x2001_0db8, 0x1234_5678, 0x0011_2233, 0x4455_6677),
            port: 32853,
        })],
    };
    let bytes = m.encode().unwrap();
    assert_eq!(
        &bytes[20..],
        &[
            0x00, 0x20, 0x00, 0x14, 0x00, 0x02, 0xa1, 0x47, 0x01, 0x13, 0xa9, 0xfa, 0xa5, 0xd3,
            0xf1, 0x79, 0xbc, 0x25, 0xf4, 0xb5, 0xbe, 0xd2, 0xb9, 0xd9
        ]
    );
    assert_eq!(Message::decode(&bytes), Ok(m));
}

#[test]
fn xor_twice_gives_the_address_back() {
    let id = codec_id();
    let a = codec_v4(203, 0, 113, 9, 3478);
    let masked = a.xor(&id);
    assert_ne!(masked, a);
    assert_eq!(masked.port, 3478 ^ 0x2112);
    assert_eq!(masked.ip, IpAddress::V4(0xCB00_7109 ^ 0x2112_A442));
    assert_eq!(masked.xor(&id), a);
}

#[test]
fn username_is_padded_to_four_bytes() {
    let m = codec_message(
        Class::Request,
        Method::Refresh,
        vec![Attribute::Username(b"alice".to_vec())],
    );
    let bytes = m.encode().unwrap();
    let mut expected = codec_header_bytes(0x0004, 12);
    expected.extend_from_slice(&[0x00, 0x06, 0x00, 0x05, b'a', b'l', b'i', b'c', b'e', 0, 0, 0]);
    assert_eq!(bytes, expected);
}

#[test]
fn decode_does_not_look_at_padding_bytes() {
    let mut bytes = codec_header_bytes(0x0004, 12);
    bytes.extend_from_slice(&[0x00, 0x06, 0x00, 0x05, b'a', b'l', b'i', b'c', b'e', 9, 8, 7]);
    let m = Message::decode(&bytes).unwrap();
    assert_eq!(m.attributes, vec![Attribute::Username(b"alice".to_vec())]);
}

#[test]
fn lifetime_and_channel_number_and_transport_exact_bytes() {
    let m = codec_message(
        Class::Request,
        Method::Allocate,
        vec![
            Attribute::Lifetime(0x0001_0203),
            Attribute::ChannelNumber(0x4abc),
            Attribute::RequestedTransport(17),
        ],
    );
    let bytes = m.encode().unwrap();
    assert_eq!(
        &bytes[20..],
        &[
            0x00, 0x0D, 0x00, 0x04, 0x00, 0x01, 0x02, 0x03, 0x00, 0x0C, 0x00, 0x04, 0x4a, 0xbc,
            0x00, 0x00, 0x00, 0x19, 0x00, 0x04, 17, 0, 0, 0
        ]
    );
}

#[test]
fn error_code_exact_bytes() {
    let m = codec_message(
        Class::ErrorResponse,
        Method::Allocate,
        vec![Attribute::ErrorCode { code: 401, reason: b"no".to_vec() }],
    );
    let bytes = m.encode().unwrap();
    assert_eq!(&bytes[20..], &[0x00, 0x09, 0x00, 0x06, 0, 0, 4, 1, b'n', b'o', 0, 0]);
}

#[test]
fn error_code_reserved_bits_are_not_looked_at() {
    let mut bytes = codec_header_bytes(0x0113, 8);
    bytes.extend_from_slice(&[0x00, 0x09, 0x00, 0x04, 0xff, 0xff, 0xfc, 37]);
    let m = Message::decode(&bytes).unwrap();
    assert_eq!(m.attributes, vec![Attribute::ErrorCode { code: 437, reason: vec![] }]);
}

#[test]
fn unknown_attributes_exact_bytes() {
    let m = codec_message(
        Class::ErrorResponse,
        Method::Allocate,
        vec![Attribute::UnknownAttributes(vec![0x001A, 0x0102, 0x0304])],
    );
    let bytes = m.encode().unwrap();
    assert_eq!(
        &bytes[20..],
        &[0x00, 0x0A, 0x00, 0x06, 0x00, 0x1A, 0x01, 0x02, 0x03, 0x04, 0, 0]
    );
    assert_eq!(Message::decode(&bytes), Ok(m));
}

#[test]
fn decode_rejects_short_datagram_as_not_stun() {
    assert_eq!(Message::decode(&[]), Err(DecodeError::NotStunFramed));
    assert_eq!(Message::decode(&codec_header_bytes(1, 0)[..19]), Err(DecodeError::NotStunFramed));
}

#[test]
fn decode_rejects_nonzero_top_bits_as_not_stun() {
    let mut bytes = codec_header_bytes(0x0001, 0);
    bytes[0] = 0x40;
    assert_eq!(Message::decode(&bytes), Err(DecodeError::NotStunFramed));
    bytes[0] = 0x80;
    assert_eq!(Message::decode(&bytes), Err(DecodeError::NotStunFramed));
}

#[test]
fn decode_rejects_bad_cookie() {
    let mut bytes = codec_header_bytes(0x0001, 0);
    bytes[7] = 0x43;
    assert_eq!(Message::decode(&bytes), Err(DecodeError::MalformedHeader));
    assert_eq!(decode_header(&bytes), Err(DecodeError::MalformedHeader));
}

#[test]
fn decode_rejects_bad_length() {
    let mut longer = codec_header_bytes(0x0001, 0);
    longer.extend_from_slice(&[0, 0, 0, 0]);
    assert_eq!(Message::decode(&longer), Err(DecodeError::MalformedHeader));
    let shorter = codec_header_bytes(0x0001, 4);
    assert_eq!(Message::decode(&shorter), Err(DecodeError::MalformedHeader));
    let mut odd = codec_header_bytes(0x0001, 3);
    odd.extend_from_slice(&[0, 0, 0]);
    assert_eq!(Message::decode(&odd), Err(DecodeError::MalformedHeader));
}

#[test]
fn decode_rejects_message_type_not_in_use() {
    for typ in [0x0000u16, 0x0002, 0x0005, 0x000a, 0x0021, 0x0201, 0x1001, 0x3fff] {
        assert_eq!(
            Message::decode(&codec_header_bytes(typ, 0)),
            Err(DecodeError::MalformedHeader)
        );
    }
}

#[test]
fn decode_rejects_attribute_past_the_end() {
    let mut bytes = codec_header_bytes(0x0003, 8);
    bytes.extend_from_slice(&[0x00, 0x06, 0x00, 0x05, b'a', b'b', b'c', b'd']);
    assert_eq!(Message::decode(&bytes), Err(DecodeError::MalformedAttribute));
}

#[test]
fn decode_rejects_values_of_the_wrong_shape() {
    let cases: Vec<Vec<u8>> = vec![
        vec![0x00, 0x0D, 0x00, 0x03, 1, 2, 3, 0],
        vec![0x00, 0x0C, 0x00, 0x02, 0x40, 0x00, 0, 0],
        vec![0x00, 0x19, 0x00, 0x01, 17, 0, 0, 0],
        vec![0x00, 0x08, 0x00, 0x04, 1, 2, 3, 4],
        vec![0x00, 0x09, 0x00, 0x04, 0, 0, 2, 0],
        vec![0x00, 0x09, 0x00, 0x04, 0, 0, 7, 0],
        vec![0x00, 0x09, 0x00, 0x04, 0, 0, 4, 100],
        vec![0x00, 0x09, 0x00, 0x03, 0, 0, 4, 0],
        vec![0x00, 0x0A, 0x00, 0x03, 0, 1, 2, 0],
        vec![0x00, 0x12, 0x00, 0x08, 0, 3, 0, 1, 1, 2, 3, 4],
        vec![0x00, 0x12, 0x00, 0x08, 0, 2, 0, 1, 1, 2, 3, 4],
        vec![0x00, 0x20, 0x00, 0x04, 0, 1, 0, 1],
    ];
    for body in cases {
        let mut bytes = codec_header_bytes(0x0003, body.len() as u16);
        bytes.extend_from_slice(&body);
        assert_eq!(Message::decode(&bytes), Err(DecodeError::MalformedAttribute), "{:?}", body);
    }
}

#[test]
fn decode_reports_unknown_required_attribute() {
    let mut bytes = codec_header_bytes(0x0003, 8);
    bytes.extend_from_slice(&[0x00, 0x19, 0x00, 0x04, 17, 0, 0, 0]);
    bytes[3] = 12;
    bytes.extend_from_slice(&[0x00, 0x1A, 0x00, 0x00]);
    assert_eq!(Message::decode(&bytes), Err(DecodeError::UnknownAttributeRequired(0x001A)));
    assert_eq!(
        decode_header(&bytes),
        Ok(Header { class: Class::Request, method: Method::Allocate, transaction_id: codec_id() })
    );
}

#[test]
fn decode_reports_the_first_error() {
    let mut bytes = codec_header_bytes(0x0003, 12);
    bytes.extend_from_slice(&[0x00, 0x22, 0x00, 0x00]);
    bytes.extend_from_slice(&[0x00, 0x0D, 0x00, 0x01, 1, 0, 0, 0]);
    assert_eq!(Message::decode(&bytes), Err(DecodeError::UnknownAttributeRequired(0x0022)));
    let mut bytes = codec_header_bytes(0x0003, 12);
    bytes.extend_from_slice(&[0x00, 0x0D, 0x00, 0x01, 1, 0, 0, 0]);
    bytes.extend_from_slice(&[0x00, 0x22, 0x00, 0x00]);
    assert_eq!(Message::decode(&bytes), Err(DecodeError::MalformedAttribute));
}

#[test]
fn decode_keeps_unknown_optional_attribute() {
    let mut bytes = codec_header_bytes(0x0001, 8);
    bytes.extend_from_slice(&[0x80, 0x28, 0x00, 0x04, 1, 2, 3, 4]);
    let m = Message::decode(&bytes).unwrap();
    assert_eq!(m.attributes, vec![Attribute::Other { typ: 0x8028, value: vec![1, 2, 3, 4] }]);
    assert_eq!(m.encode().unwrap(), bytes);
}

#[test]
fn encode_refuses_attributes_that_are_not_well_formed() {
    let bad = vec![
        Attribute::MessageIntegrity(vec![0u8; 19]),
        Attribute::MessageIntegrity(vec![0u8; 21]),
        Attribute::ErrorCode { code: 299, reason: vec![] },
        Attribute::ErrorCode { code: 700, reason: vec![] },
        Attribute::Other { typ: 0x7FFF, value: vec![] },
        Attribute::Other { typ: 0x0006, value: vec![] },
        Attribute::Data(vec![0u8; 0x10000]),
        Attribute::UnknownAttributes(vec![0u16; 0x8000]),
    ];
    for a in bad {
        assert!(!a.is_valid(), "{:?}", a.code());
        let m = codec_message(Class::Indication, Method::Data, vec![a]);
        assert_eq!(m.encode(), None);
    }
}

#[test]
fn encode_refuses_a_body_that_the_length_field_cannot_hold() {
    let half = Attribute::Data(vec![0u8; 0x8000]);
    assert!(half.is_valid());
    let one = codec_message(Class::Indication, Method::Data, vec![half.clone()]);
    assert_eq!(one.encode().unwrap().len(), 20 + 4 + 0x8000);
    let two = codec_message(Class::Indication, Method::Data, vec![half.clone(), half]);
    assert_eq!(two.encode(), None);
    let most = codec_message(
        Class::Indication,
        Method::Data,
        vec![Attribute::Data(vec![1u8; 0xFFFF - 4 - 3])],
    );
    let bytes = most.encode().unwrap();
    assert_eq!(bytes.len(), 20 + 0xFFFC);
    assert_eq!(Message::decode(&bytes), Ok(most));
}

#[test]
fn attribute_type_codes() {
    assert_eq!(Attribute::Username(vec![]).code(), 0x0006);
    assert_eq!(Attribute::MessageIntegrity(vec![]).code(), 0x0008);
    assert_eq!(Attribute::ErrorCode { code: 400, reason: vec![] }.code(), 0x0009);
    assert_eq!(Attribute::UnknownAttributes(vec![]).code(), 0x000A);
    assert_eq!(Attribute::ChannelNumber(0).code(), 0x000C);
    assert_eq!(Attribute::Lifetime(0).code(), 0x000D);
    assert_eq!(Attribute::XorPeerAddress(codec_v4(1, 2, 3, 4, 5)).code(), 0x0012);
    assert_eq!(Attribute::Data(vec![]).code(), 0x0013);
    assert_eq!(Attribute::Realm(vec![]).code(), 0x0014);
    assert_eq!(Attribute::Nonce(vec![]).code(), 0x0015);
    assert_eq!(Attribute::XorRelayedAddress(codec_v4(1, 2, 3, 4, 5)).code(), 0x0016);
    assert_eq!(Attribute::RequestedTransport(17).code(), 0x0019);
    assert_eq!(Attribute::XorMappedAddress(codec_v4(1, 2, 3, 4, 5)).code(), 0x0020);
    assert_eq!(Attribute::Other { typ: 0x9000, value: vec![] }.code(), 0x9000);
}

#[test]
fn getters_read_the_first_attribute_of_a_type() {
    let p1 = codec_v4(10, 0, 0, 1, 1000);
    let p2 = codec_v4(10, 0, 0, 2, 2000);
    let m = codec_message(
        Class::Request,
        Method::CreatePermission,
        vec![
            Attribute::XorPeerAddress(p1),
            Attribute::Lifetime(5),
            Attribute::Username(b"u1".to_vec()),
            Attribute::XorPeerAddress(p2),
            Attribute::Lifetime(6),
            Attribute::Username(b"u2".to_vec()),
            Attribute::ChannelNumber(0x4000),
            Attribute::RequestedTransport(17),
        ],
    );
    assert_eq!(m.peer(), Some(p1));
    assert_eq!(m.peers(), vec![p1, p2]);
    assert_eq!(m.lifetime(), Some(5));
    assert_eq!(m.text(0x0006), Some(&b"u1".to_vec()));
    assert_eq!(m.text(0x0014), None);
    assert_eq!(m.text(0x000D), None);
    assert_eq!(m.channel_number(), Some(0x4000));
    assert_eq!(m.requested_transport(), Some(17));
    assert_eq!(m.find(0x000D), Some(&Attribute::Lifetime(5)));
    assert_eq!(m.find(0x0013), None);
    let empty = codec_message(Class::Request, Method::Refresh, vec![]);
    assert_eq!(empty.peer(), None);
    assert_eq!(empty.peers(), vec![]);
    assert_eq!(empty.lifetime(), None);
    assert_eq!(empty.channel_number(), None);
    assert_eq!(empty.requested_transport(), None);
}

fn codec_stun_message(method: stun::message::Method, class: stun::message::MessageClass) -> stun::message::Message {
    let mut m = stun::message::Message::new();
    m.transaction_id = stun::agent::TransactionId([1, 2, 3, 4, 5, 6, 7, 8, 9, 10, 11, 12]);
    m.set_type(stun::message::MessageType::new(method, class));
    m.write_header();
    m
}

#[test]
fn encode_matches_the_stun_crate() {
    let mut theirs = codec_stun_message(stun::message::METHOD_ALLOCATE, stun::message::CLASS_REQUEST);
    stun::textattrs::TextAttribute::new(stun::attributes::ATTR_USERNAME, "alice".to_owned())
        .add_to(&mut theirs)
        .unwrap();
    stun::textattrs::TextAttribute::new(stun::attributes::ATTR_REALM, "example.org".to_owned())
        .add_to(&mut theirs)
        .unwrap();
    stun::textattrs::TextAttribute::new(stun::attributes::ATTR_NONCE, "abcdefg".to_owned())
        .add_to(&mut theirs)
        .unwrap();
    turn::proto::lifetime::Lifetime(std::time::Duration::from_secs(777)).add_to(&mut theirs).unwrap();
    turn::proto::reqtrans::RequestedTransport { protocol: turn::proto::PROTO_UDP }
        .add_to(&mut theirs)
        .unwrap();
    stun::xoraddr::XorMappedAddress { ip: "192.0.2.33".parse().unwrap(), port: 40000 }
        .add_to(&mut theirs)
        .unwrap();
    turn::proto::peeraddr::PeerAddress { ip: "2001:db8::17".parse().unwrap(), port: 9 }
        .add_to(&mut theirs)
        .unwrap();
    turn::proto::relayaddr::RelayedAddress { ip: "198.51.100.200".parse().unwrap(), port: 65535 }
        .add_to(&mut theirs)
        .unwrap();
    turn::proto::channum::ChannelNumber(0x4567).add_to(&mut theirs).unwrap();
    turn::proto::data::Data(vec![1, 2, 3, 4, 5, 6, 7]).add_to(&mut theirs).unwrap();
    stun::error_code::ErrorCodeAttribute {
        code: stun::error_code::ErrorCode(508),
        reason: b"full".to_vec(),
    }
    .add_to(&mut theirs)
    .unwrap();
    stun::uattrs::UnknownAttributes(vec![stun::attributes::ATTR_DONT_FRAGMENT])
        .add_to(&mut theirs)
        .unwrap();

    let ours = codec_message(
        Class::Request,
        Method::Allocate,
        vec![
            Attribute::Username(b"alice".to_vec()),
            Attribute::Realm(b"example.org".to_vec()),
            Attribute::Nonce(b"abcdefg".to_vec()),
            Attribute::Lifetime(777),
            Attribute::RequestedTransport(17),
            Attribute::XorMappedAddress(codec_v4(192, 0, 2, 33, 40000)),
            Attribute::XorPeerAddress(TransportAddr {
                ip: IpAddress::V6(0x2001_0db8, 0, 0, 0x17),
                port: 9,
            }),
            Attribute::XorRelayedAddress(codec_v4(198, 51, 100, 200, 65535)),
            Attribute::ChannelNumber(0x4567),
            Attribute::Data(vec![1, 2, 3, 4, 5, 6, 7]),
            Attribute::ErrorCode { code: 508, reason: b"full".to_vec() },
            Attribute::UnknownAttributes(vec![0x001A]),
        ],
    );
    assert_eq!(ours.encode().unwrap(), theirs.raw);
    assert_eq!(Message::decode(&theirs.raw), Ok(ours));
}

#[test]
fn the_stun_crate_reads_what_is_encoded() {
    let ours = Message {
        class: Class::SuccessResponse,
        method: Method::Allocate,
        transaction_id: codec_id(),
        attributes: vec![
            Attribute::XorRelayedAddress(codec_v4(203, 0, 113, 5, 49152)),
            Attribute::Lifetime(600),
            Attribute::XorMappedAddress(TransportAddr {
                ip: IpAddress::V6(0xfe80_0000, 0, 0x0202_b3ff, 0xfe1e_8329),
                port: 1234,
            }),
        ],
    };
    let mut theirs = stun::message::Message::new();
    theirs.raw = ours.encode().unwrap();
    theirs.decode().unwrap();
    assert_eq!(theirs.typ.method, stun::message::METHOD_ALLOCATE);
    assert_eq!(theirs.typ.class, stun::message::CLASS_SUCCESS_RESPONSE);
    assert_eq!(theirs.transaction_id.0, [1, 2, 3, 4, 5, 6, 7, 8, 9, 10, 11, 12]);
    let mut relayed = turn::proto::relayaddr::RelayedAddress::default();
    relayed.get_from(&theirs).unwrap();
    assert_eq!(relayed.ip.to_string(), "203.0.113.5");
    assert_eq!(relayed.port, 49152);
    let mut mapped = stun::xoraddr::XorMappedAddress::default();
    mapped.get_from(&theirs).unwrap();
    assert_eq!(mapped.ip.to_string(), "fe80::202:b3ff:fe1e:8329");
    assert_eq!(mapped.port, 1234);
    let mut lifetime = turn::proto::lifetime::Lifetime::default();
    lifetime.get_from(&theirs).unwrap();
    assert_eq!(lifetime.0, std::time::Duration::from_secs(600));
}

#[test]
fn channel_data_exact_bytes() {
    let frame = ChannelData { number: 0x4001, data: vec![9, 8, 7, 6, 5] };
    assert_eq!(frame.encode().unwrap(), vec![0x40, 0x01, 0x00, 0x05, 9, 8, 7, 6, 5, 0, 0, 0]);
    let whole = ChannelData { number: 0x7FFF, data: vec![1, 2, 3, 4] };
    assert_eq!(whole.encode().unwrap(), vec![0x7F, 0xFF, 0x00, 0x04, 1, 2, 3, 4]);
}

#[test]
fn channel_data_roundtrip() {
    for len in [0usize, 1, 2, 3, 4, 5, 1000, 0xFFFF] {
        let frame = ChannelData { number: 0x4000, data: vec![0xabu8; len] };
        let bytes = frame.encode().unwrap();
        assert_eq!(bytes.len() % 4, 0);
        assert_eq!(ChannelData::decode(&bytes), Some(frame));
    }
}

#[test]
fn channel_data_refuses_what_cannot_be_sent() {
    assert_eq!(ChannelData { number: 0x3FFF, data: vec![] }.encode(), None);
    assert_eq!(ChannelData { number: 0x8000, data: vec![] }.encode(), None);
    assert_eq!(ChannelData { number: 0x4000, data: vec![0u8; 0x10000] }.encode(), None);
}

#[test]
fn channel_data_decode_rejects_bad_frames() {
    assert_eq!(ChannelData::decode(&[]), None);
    assert_eq!(ChannelData::decode(&[0x40, 0x00, 0x00]), None);
    assert_eq!(ChannelData::decode(&[0x3F, 0xFF, 0x00, 0x00]), None);
    assert_eq!(ChannelData::decode(&[0x80, 0x00, 0x00, 0x00]), None);
    assert_eq!(ChannelData::decode(&[0x40, 0x00, 0x00, 0x02, 1]), None);
    assert_eq!(
        ChannelData::decode(&[0x40, 0x00, 0x00, 0x00]),
        Some(ChannelData { number: 0x4000, data: vec![] })
    );
}

#[test]
fn channel_data_does_not_look_past_the_payload() {
    assert_eq!(
        ChannelData::decode(&[0x40, 0x02, 0x00, 0x01, 7, 1, 2, 3, 4, 5]),
        Some(ChannelData { number: 0x4002, data: vec![7] })
    );
}

#[test]
fn channel_data_matches_the_turn_crate() {
    let mut theirs = turn::proto::chandata::ChannelData {
        data: vec![1, 2, 3, 4, 5, 6],
        number: turn::proto::channum::ChannelNumber(0x4321),
        raw: vec![],
    };
    theirs.encode();
    let ours = ChannelData { number: 0x4321, data: vec![1, 2, 3, 4, 5, 6] };
    assert_eq!(ours.encode().unwrap(), theirs.raw);
    let mut back = turn::proto::chandata::ChannelData {
        raw: ours.encode().unwrap(),
        ..Default::default()
    };
    back.decode().unwrap();
    assert_eq!(back.number.0, 0x4321);
    assert_eq!(back.data, vec![1, 2, 3, 4, 5, 6]);
    assert_eq!(ChannelData::decode(&theirs.raw), Some(ours));
}

#[test]
fn protected_drops_what_comes_after_the_integrity_tag() {
    let tag = Attribute::MessageIntegrity(vec![1u8; 20]);
    let m = codec_message(
        Class::Request,
        Method::Refresh,
        vec![
            Attribute::Username(b"u".to_vec()),
            tag.clone(),
            Attribute::Lifetime(0),
            tag.clone(),
            Attribute::Other { typ: 0x8028, value: vec![1, 2, 3, 4] },
        ],
    );
    let p = m.protected();
    assert_eq!(p.attributes, vec![Attribute::Username(b"u".to_vec()), tag.clone()]);
    assert_eq!(p.class, Class::Request);
    assert_eq!(p.method, Method::Refresh);
    assert_eq!(p.transaction_id, codec_id());
    let plain = codec_message(Class::Request, Method::Refresh, vec![Attribute::Lifetime(5)]);
    assert_eq!(plain.clone().protected(), plain);
    let first = codec_message(Class::Request, Method::Refresh, vec![tag.clone(), Attribute::Lifetime(5)]);
    assert_eq!(first.protected().attributes, vec![tag]);
    let none = codec_message(Class::Request, Method::Refresh, vec![]);
    assert_eq!(none.clone().protected(), none);
}
