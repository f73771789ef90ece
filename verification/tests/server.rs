use turnsrv::addr::{ClientTuple, IpAddress, TransactionId, Transport, TransportAddr};
use turnsrv::allocation::TableConfig;
use turnsrv::attr::Attribute;
use turnsrv::auth::seal;
use turnsrv::chandata::ChannelData;
use turnsrv::credentials::CredentialStore;
use turnsrv::message::{Class, Message, Method};
use turnsrv::server::{Action, Server, ServerConfig};

fn sv_key() -> Vec<u8> {
    turn::auth::generate_auth_key("bns", "bns", "password")
}

fn sv_server(min_port: u16, max_port: u16) -> Server {
    let mut creds = CredentialStore::new();
    assert!(creds.add_password("bns", "bns", "password"));
    Server::new(
        ServerConfig {
            realm: b"bns".to_vec(),
            nonce_lifetime: 3600,
            table: TableConfig {
                relay_ip: IpAddress::V4(0x7F00_0001),
                min_port,
                max_port,
                default_lifetime: 600,
                max_lifetime: 3600,
                user_quota: u32::MAX,
                permission_lifetime: 300,
                channel_lifetime: 600,
            },
        },
        creds,
    )
}

fn sv_addr(last: u8, port: u16) -> TransportAddr {
    TransportAddr { ip: IpAddress::V4(u32::from_be_bytes([10, 0, 0, last])), port }
}

fn sv_relay(port: u16) -> TransportAddr {
    TransportAddr { ip: IpAddress::V4(0x7F00_0001), port }
}

fn sv_client(last: u8) -> ClientTuple {
    ClientTuple {
        transport: Transport::Udp,
        client: sv_addr(last, 40000),
        server: TransportAddr { ip: IpAddress::V4(0x7F00_0001), port: 3478 },
    }
}

fn sv_id(n: u32) -> TransactionId {
    TransactionId { w0: 0xaaaa_0000, w1: 7, w2: n }
}

fn sv_plain(class: Class, method: Method, n: u32, attributes: Vec<Attribute>) -> Vec<u8> {
    Message { class, method, transaction_id: sv_id(n), attributes }.encode().unwrap()
}

fn sv_signed(method: Method, n: u32, nonce: &[u8], mut extra: Vec<Attribute>) -> Vec<u8> {
    let mut attributes = vec![
        Attribute::Username(b"bns".to_vec()),
        Attribute::Realm(b"bns".to_vec()),
        Attribute::Nonce(nonce.to_vec()),
    ];
    attributes.append(&mut extra);
    let m = Message { class: Class::Request, method, transaction_id: sv_id(n), attributes };
    seal(&m, &sv_key()).unwrap()
}

fn sv_reply(actions: &[Action], to: ClientTuple) -> Message {
    match actions.last() {
        Some(Action::ToClient { tuple, bytes }) => {
            assert_eq!(*tuple, to);
            Message::decode(bytes).unwrap()
        }
        other => panic!("no reply: {:?}", other),
    }
}

fn sv_error_code(m: &Message) -> u16 {
    assert_eq!(m.class, Class::ErrorResponse);
    match m.find(0x0009) {
        Some(Attribute::ErrorCode { code, .. }) => *code,
        _ => panic!("no error code"),
    }
}

/// A server on which the client `sv_client(1)` holds an allocation on relay
/// port 50000 made at instant 1000, with nonce "nonce-1" handed out.
fn sv_allocated() -> Server {
    let mut s = sv_server(50000, 50010);
    let c = sv_client(1);
    let first = sv_plain(Class::Request, Method::Allocate, 1, vec![Attribute::RequestedTransport(17)]);
    s.handle_client_datagram(c, &first, 1000, b"nonce-1");
    let second = sv_signed(Method::Allocate, 2, b"nonce-1", vec![Attribute::RequestedTransport(17)]);
    let actions = s.handle_client_datagram(c, &second, 1000, b"unused");
    assert_eq!(actions.len(), 2);
    s
}

#[test]
fn binding_request_is_answered_without_credentials() {
    let mut s = sv_server(50000, 50010);
    let c = sv_client(1);
    let raw = sv_plain(Class::Request, Method::Binding, 1, vec![]);
    let actions = s.handle_client_datagram(c, &raw, 0, b"n");
    assert_eq!(actions.len(), 1);
    assert_eq!(
        sv_reply(&actions, c),
        Message {
            class: Class::SuccessResponse,
            method: Method::Binding,
            transaction_id: sv_id(1),
            attributes: vec![Attribute::XorMappedAddress(c.client)],
        }
    );
}

#[test]
fn allocate_scenario_from_challenge_to_relayed_data() {
    let mut s = sv_server(50000, 50010);
    let c = sv_client(1);
    let p = sv_addr(7, 7000);
    let q = sv_addr(8, 8000);

    let first = sv_plain(Class::Request, Method::Allocate, 1, vec![Attribute::RequestedTransport(17)]);
    let actions = s.handle_client_datagram(c, &first, 1000, b"nonce-1");
    assert_eq!(actions.len(), 1);
    assert_eq!(
        sv_reply(&actions, c),
        Message {
            class: Class::ErrorResponse,
            method: Method::Allocate,
            transaction_id: sv_id(1),
            attributes: vec![
                Attribute::ErrorCode { code: 401, reason: vec![] },
                Attribute::Nonce(b"nonce-1".to_vec()),
                Attribute::Realm(b"bns".to_vec()),
            ],
        }
    );
    assert!(s.lookup(c, 1000).is_none());

    let second = sv_signed(
        Method::Allocate,
        2,
        b"nonce-1",
        vec![Attribute::RequestedTransport(17), Attribute::Lifetime(1200)],
    );
    let actions = s.handle_client_datagram(c, &second, 1001, b"unused");
    assert_eq!(actions.len(), 2);
    assert_eq!(actions[0], Action::OpenRelay { relay: sv_relay(50000) });
    let reply = sv_reply(&actions, c);
    assert_eq!(reply.class, Class::SuccessResponse);
    assert_eq!(reply.method, Method::Allocate);
    assert_eq!(reply.transaction_id, sv_id(2));
    assert_eq!(
        &reply.attributes[..3],
        &[
            Attribute::XorRelayedAddress(sv_relay(50000)),
            Attribute::Lifetime(1200),
            Attribute::XorMappedAddress(c.client),
        ]
    );
    assert_eq!(reply.attributes.len(), 4);
    assert_eq!(reply.attributes[3].code(), 0x0008);
    if let Action::ToClient { bytes, .. } = &actions[1] {
        let mut theirs = stun::message::Message::new();
        theirs.raw = bytes.clone();
        theirs.decode().unwrap();
        assert!(stun::integrity::MessageIntegrity(sv_key()).check(&mut theirs).is_ok());
    }
    assert_eq!(s.lookup(c, 1001).unwrap().relay, sv_relay(50000));
    assert_eq!(s.lookup(c, 1001).unwrap().expires, 2201);
    assert_eq!(s.owner_of_relay(50000, 1001), Some(c));
    assert_eq!(s.owner_of_relay(50001, 1001), None);

    let third = sv_signed(Method::CreatePermission, 3, b"nonce-1", vec![Attribute::XorPeerAddress(p)]);
    let actions = s.handle_client_datagram(c, &third, 1002, b"unused");
    assert_eq!(actions.len(), 1);
    let reply = sv_reply(&actions, c);
    assert_eq!(reply.class, Class::SuccessResponse);
    assert_eq!(reply.method, Method::CreatePermission);
    assert_eq!(reply.attributes.len(), 1);

    let actions = s.handle_peer_datagram(50000, p, b"hello client", 1003, sv_id(99));
    assert_eq!(actions.len(), 1);
    assert_eq!(
        sv_reply(&actions, c),
        Message {
            class: Class::Indication,
            method: Method::Data,
            transaction_id: sv_id(99),
            attributes: vec![
                Attribute::XorPeerAddress(p),
                Attribute::Data(b"hello client".to_vec()),
            ],
        }
    );

    assert_eq!(s.handle_peer_datagram(50000, q, b"hello client", 1003, sv_id(100)), vec![]);
    assert_eq!(s.handle_peer_datagram(50000, p, b"late", 1302, sv_id(101)), vec![]);
}

#[test]
fn refresh_with_lifetime_zero_removes_the_allocation() {
    let mut s = sv_allocated();
    let c = sv_client(1);
    let p = sv_addr(7, 7000);
    let permit = sv_signed(Method::CreatePermission, 3, b"nonce-1", vec![Attribute::XorPeerAddress(p)]);
    s.handle_client_datagram(c, &permit, 1001, b"unused");
    assert_eq!(s.handle_peer_datagram(50000, p, b"x", 1002, sv_id(9)).len(), 1);

    let refresh = sv_signed(Method::Refresh, 4, b"nonce-1", vec![Attribute::Lifetime(0)]);
    let actions = s.handle_client_datagram(c, &refresh, 1003, b"unused");
    assert_eq!(actions.len(), 2);
    assert_eq!(actions[0], Action::CloseRelay { relay: sv_relay(50000) });
    let reply = sv_reply(&actions, c);
    assert_eq!(reply.class, Class::SuccessResponse);
    assert_eq!(reply.method, Method::Refresh);
    assert_eq!(reply.attributes[0], Attribute::Lifetime(0));
    assert!(s.lookup(c, 1003).is_none());

    assert_eq!(s.handle_peer_datagram(50000, p, b"x", 1004, sv_id(10)), vec![]);
    let send = sv_plain(
        Class::Indication,
        Method::Send,
        5,
        vec![Attribute::XorPeerAddress(p), Attribute::Data(b"y".to_vec())],
    );
    assert_eq!(s.handle_client_datagram(c, &send, 1004, b"unused"), vec![]);
    let again = sv_signed(Method::Refresh, 6, b"nonce-1", vec![Attribute::Lifetime(600)]);
    let actions = s.handle_client_datagram(c, &again, 1005, b"unused");
    assert_eq!(sv_error_code(&sv_reply(&actions, c)), 437);
}

#[test]
fn refresh_answers_with_the_granted_lifetime() {
    let mut s = sv_allocated();
    let c = sv_client(1);
    let refresh = sv_signed(Method::Refresh, 4, b"nonce-1", vec![Attribute::Lifetime(99999)]);
    let actions = s.handle_client_datagram(c, &refresh, 1100, b"unused");
    assert_eq!(actions.len(), 1);
    assert_eq!(sv_reply(&actions, c).attributes[0], Attribute::Lifetime(3600));
    assert_eq!(s.lookup(c, 1100).unwrap().expires, 4700);
    let refresh = sv_signed(Method::Refresh, 5, b"nonce-1", vec![]);
    let actions = s.handle_client_datagram(c, &refresh, 1200, b"unused");
    assert_eq!(sv_reply(&actions, c).attributes[0], Attribute::Lifetime(600));
    assert_eq!(s.lookup(c, 1200).unwrap().expires, 1800);
}

#[test]
fn channel_data_goes_to_the_bound_peer_without_credentials() {
    let mut s = sv_allocated();
    let c = sv_client(1);
    let p = sv_addr(7, 7000);
    let bind = sv_signed(
        Method::ChannelBind,
        3,
        b"nonce-1",
        vec![Attribute::ChannelNumber(0x4000), Attribute::XorPeerAddress(p)],
    );
    let actions = s.handle_client_datagram(c, &bind, 1001, b"unused");
    assert_eq!(actions.len(), 1);
    let reply = sv_reply(&actions, c);
    assert_eq!(reply.class, Class::SuccessResponse);
    assert_eq!(reply.method, Method::ChannelBind);

    let frame = ChannelData { number: 0x4000, data: b"payload".to_vec() }.encode().unwrap();
    assert_eq!(
        s.handle_client_datagram(c, &frame, 1002, b"unused"),
        vec![Action::ToPeer { relay: sv_relay(50000), peer: p, payload: b"payload".to_vec() }]
    );
    let unknown = ChannelData { number: 0x4001, data: b"payload".to_vec() }.encode().unwrap();
    assert_eq!(s.handle_client_datagram(c, &unknown, 1002, b"unused"), vec![]);
    assert_eq!(s.handle_client_datagram(sv_client(2), &frame, 1002, b"unused"), vec![]);
    assert_eq!(s.handle_client_datagram(c, &frame, 1601, b"unused"), vec![]);

    let actions = s.handle_peer_datagram(50000, p, b"back", 1003, sv_id(9));
    assert_eq!(
        actions,
        vec![Action::ToClient {
            tuple: c,
            bytes: vec![0x40, 0x00, 0x00, 0x04, b'b', b'a', b'c', b'k'],
        }]
    );
}

#[test]
fn channel_bind_conflicts_are_bad_requests() {
    let mut s = sv_allocated();
    let c = sv_client(1);
    let p = sv_addr(7, 7000);
    let q = sv_addr(8, 8000);
    let bind = |n: u32, number: u16, peer: TransportAddr| {
        sv_signed(
            Method::ChannelBind,
            n,
            b"nonce-1",
            vec![Attribute::ChannelNumber(number), Attribute::XorPeerAddress(peer)],
        )
    };
    let ok = s.handle_client_datagram(c, &bind(3, 0x4000, p), 1001, b"unused");
    assert_eq!(sv_reply(&ok, c).class, Class::SuccessResponse);
    let in_use = s.handle_client_datagram(c, &bind(4, 0x4000, q), 1002, b"unused");
    assert_eq!(sv_error_code(&sv_reply(&in_use, c)), 400);
    let bound = s.handle_client_datagram(c, &bind(5, 0x4001, p), 1002, b"unused");
    assert_eq!(sv_error_code(&sv_reply(&bound, c)), 400);
    let range = s.handle_client_datagram(c, &bind(6, 0x3000, q), 1002, b"unused");
    assert_eq!(sv_error_code(&sv_reply(&range, c)), 400);
    let missing = sv_signed(Method::ChannelBind, 7, b"nonce-1", vec![Attribute::ChannelNumber(0x4002)]);
    let actions = s.handle_client_datagram(c, &missing, 1002, b"unused");
    assert_eq!(sv_error_code(&sv_reply(&actions, c)), 400);
    let again = s.handle_client_datagram(c, &bind(8, 0x4000, p), 1500, b"unused");
    assert_eq!(sv_reply(&again, c).class, Class::SuccessResponse);
    assert_eq!(s.lookup(c, 1500).unwrap().peers.peer_for(0x4000, 2099), Some(p));
    let none = s.handle_client_datagram(sv_client(2), &bind(9, 0x4000, p), 1500, b"unused");
    assert_eq!(sv_error_code(&sv_reply(&none, sv_client(2))), 437);
}

#[test]
fn send_indication_needs_a_permission_and_is_never_answered() {
    let mut s = sv_allocated();
    let c = sv_client(1);
    let p = sv_addr(7, 7000);
    let send = sv_plain(
        Class::Indication,
        Method::Send,
        5,
        vec![Attribute::XorPeerAddress(p), Attribute::Data(b"out".to_vec())],
    );
    assert_eq!(s.handle_client_datagram(c, &send, 1001, b"unused"), vec![]);
    let permit = sv_signed(Method::CreatePermission, 3, b"nonce-1", vec![Attribute::XorPeerAddress(p)]);
    s.handle_client_datagram(c, &permit, 1001, b"unused");
    assert_eq!(
        s.handle_client_datagram(c, &send, 1002, b"unused"),
        vec![Action::ToPeer { relay: sv_relay(50000), peer: p, payload: b"out".to_vec() }]
    );
    assert!(s.lookup(c, 1002).unwrap().peers.has_permission(p.ip, 1301));
    let no_data = sv_plain(Class::Indication, Method::Send, 6, vec![Attribute::XorPeerAddress(p)]);
    assert_eq!(s.handle_client_datagram(c, &no_data, 1002, b"unused"), vec![]);
    let other = sv_plain(Class::Indication, Method::Binding, 7, vec![]);
    assert_eq!(s.handle_client_datagram(c, &other, 1002, b"unused"), vec![]);
    let response = sv_plain(Class::SuccessResponse, Method::Allocate, 8, vec![]);
    assert_eq!(s.handle_client_datagram(c, &response, 1002, b"unused"), vec![]);
}

#[test]
fn create_permission_is_all_or_nothing() {
    let mut s = sv_allocated();
    let c = sv_client(1);
    let p = sv_addr(7, 7000);
    let q = sv_addr(8, 8000);
    let v6 = TransportAddr { ip: IpAddress::V6(0x2001_0db8, 0, 0, 1), port: 1 };
    let mixed = sv_signed(
        Method::CreatePermission,
        3,
        b"nonce-1",
        vec![Attribute::XorPeerAddress(p), Attribute::XorPeerAddress(v6)],
    );
    let actions = s.handle_client_datagram(c, &mixed, 1001, b"unused");
    assert_eq!(sv_error_code(&sv_reply(&actions, c)), 400);
    assert!(!s.lookup(c, 1001).unwrap().peers.has_permission(p.ip, 1001));
    let none = sv_signed(Method::CreatePermission, 4, b"nonce-1", vec![]);
    let actions = s.handle_client_datagram(c, &none, 1001, b"unused");
    assert_eq!(sv_error_code(&sv_reply(&actions, c)), 400);
    let both = sv_signed(
        Method::CreatePermission,
        5,
        b"nonce-1",
        vec![Attribute::XorPeerAddress(p), Attribute::XorPeerAddress(q)],
    );
    let actions = s.handle_client_datagram(c, &both, 1001, b"unused");
    assert_eq!(sv_reply(&actions, c).class, Class::SuccessResponse);
    assert!(s.lookup(c, 1001).unwrap().peers.has_permission(p.ip, 1300));
    assert!(s.lookup(c, 1001).unwrap().peers.has_permission(q.ip, 1300));
    assert!(!s.lookup(c, 1001).unwrap().peers.has_permission(q.ip, 1301));
    let stranger = s.handle_client_datagram(sv_client(2), &both, 1001, b"unused");
    assert_eq!(sv_error_code(&sv_reply(&stranger, sv_client(2))), 437);
}

#[test]
fn allocate_errors_are_answered_with_their_codes() {
    let mut s = sv_server(50000, 50000);
    let c = sv_client(1);
    s.handle_client_datagram(c, &sv_plain(Class::Request, Method::Allocate, 1, vec![]), 0, b"nonce-1");
    let no_transport = sv_signed(Method::Allocate, 2, b"nonce-1", vec![]);
    let actions = s.handle_client_datagram(c, &no_transport, 1, b"unused");
    assert_eq!(sv_error_code(&sv_reply(&actions, c)), 400);
    let tcp = sv_signed(Method::Allocate, 3, b"nonce-1", vec![Attribute::RequestedTransport(6)]);
    let actions = s.handle_client_datagram(c, &tcp, 1, b"unused");
    assert_eq!(sv_error_code(&sv_reply(&actions, c)), 442);
    let good = sv_signed(Method::Allocate, 4, b"nonce-1", vec![Attribute::RequestedTransport(17)]);
    let actions = s.handle_client_datagram(c, &good, 1, b"unused");
    assert_eq!(actions[0], Action::OpenRelay { relay: sv_relay(50000) });
    let retry = s.handle_client_datagram(c, &good, 2, b"unused");
    assert_eq!(retry.len(), 1);
    let reply = sv_reply(&retry, c);
    assert_eq!(reply.class, Class::SuccessResponse);
    assert_eq!(reply.attributes[0], Attribute::XorRelayedAddress(sv_relay(50000)));
    assert_eq!(reply.attributes[1], Attribute::Lifetime(599));
    let other = sv_signed(Method::Allocate, 5, b"nonce-1", vec![Attribute::RequestedTransport(17)]);
    let actions = s.handle_client_datagram(c, &other, 2, b"unused");
    assert_eq!(sv_error_code(&sv_reply(&actions, c)), 437);
    let second_client = s.handle_client_datagram(sv_client(2), &other, 2, b"unused");
    assert_eq!(sv_error_code(&sv_reply(&second_client, sv_client(2))), 508);
    assert_eq!(second_client.len(), 1);
}

#[test]
fn credentials_that_fail_are_answered_with_their_codes() {
    let mut s = sv_allocated();
    let c = sv_client(1);
    let stale = sv_signed(Method::Refresh, 3, b"old", vec![]);
    let actions = s.handle_client_datagram(c, &stale, 1001, b"nonce-2");
    assert_eq!(
        sv_reply(&actions, c).attributes,
        vec![
            Attribute::ErrorCode { code: 438, reason: vec![] },
            Attribute::Nonce(b"nonce-2".to_vec()),
            Attribute::Realm(b"bns".to_vec()),
        ]
    );
    assert!(s.lookup(c, 1001).is_some());
    let fresh = sv_signed(Method::Refresh, 4, b"nonce-2", vec![]);
    let actions = s.handle_client_datagram(c, &fresh, 1002, b"unused");
    assert_eq!(sv_reply(&actions, c).class, Class::SuccessResponse);

    let wrong = seal(
        &Message {
            class: Class::Request,
            method: Method::Refresh,
            transaction_id: sv_id(5),
            attributes: vec![
                Attribute::Username(b"bns".to_vec()),
                Attribute::Realm(b"bns".to_vec()),
                Attribute::Nonce(b"nonce-2".to_vec()),
                Attribute::Lifetime(0),
            ],
        },
        b"not the key",
    )
    .unwrap();
    let actions = s.handle_client_datagram(c, &wrong, 1003, b"unused");
    assert_eq!(sv_error_code(&sv_reply(&actions, c)), 401);
    assert_eq!(sv_reply(&actions, c).attributes.len(), 1);
    assert!(s.lookup(c, 1003).is_some());

    let incomplete = seal(
        &Message {
            class: Class::Request,
            method: Method::Refresh,
            transaction_id: sv_id(6),
            attributes: vec![Attribute::Username(b"bns".to_vec())],
        },
        &sv_key(),
    )
    .unwrap();
    let actions = s.handle_client_datagram(c, &incomplete, 1003, b"unused");
    assert_eq!(sv_error_code(&sv_reply(&actions, c)), 400);
}

#[test]
fn requests_with_the_method_of_an_indication_are_bad_requests() {
    let mut s = sv_server(50000, 50010);
    let c = sv_client(1);
    for method in [Method::Send, Method::Data] {
        let raw = sv_plain(Class::Request, method, 1, vec![]);
        let actions = s.handle_client_datagram(c, &raw, 0, b"n");
        let reply = sv_reply(&actions, c);
        assert_eq!(reply.method, method);
        assert_eq!(sv_error_code(&reply), 400);
    }
}

#[test]
fn unknown_required_attribute_is_answered_with_420() {
    let mut s = sv_server(50000, 50010);
    let c = sv_client(1);
    let mut raw = sv_plain(Class::Request, Method::Allocate, 1, vec![Attribute::RequestedTransport(17)]);
    raw.extend_from_slice(&[0x00, 0x1A, 0x00, 0x00]);
    raw[3] = 12;
    let actions = s.handle_client_datagram(c, &raw, 0, b"n");
    assert_eq!(
        sv_reply(&actions, c),
        Message {
            class: Class::ErrorResponse,
            method: Method::Allocate,
            transaction_id: sv_id(1),
            attributes: vec![
                Attribute::ErrorCode { code: 420, reason: vec![] },
                Attribute::UnknownAttributes(vec![0x001A]),
            ],
        }
    );
    raw[1] = 0x16;
    raw[0] = 0x00;
    assert_eq!(s.handle_client_datagram(c, &raw, 0, b"n"), vec![]);
}

#[test]
fn malformed_datagrams_are_dropped_or_answered_with_400() {
    let mut s = sv_server(50000, 50010);
    let c = sv_client(1);
    assert_eq!(s.handle_client_datagram(c, &[], 0, b"n"), vec![]);
    assert_eq!(s.handle_client_datagram(c, &[0x00, 0x01], 0, b"n"), vec![]);
    assert_eq!(s.handle_client_datagram(c, &[0x80; 40], 0, b"n"), vec![]);
    assert_eq!(s.handle_client_datagram(c, &[0xFF; 40], 0, b"n"), vec![]);
    assert_eq!(s.handle_client_datagram(c, &[0x40, 0x00, 0x00, 0x09, 1], 0, b"n"), vec![]);
    let mut bad_cookie = sv_plain(Class::Request, Method::Binding, 1, vec![]);
    bad_cookie[4] = 0;
    assert_eq!(s.handle_client_datagram(c, &bad_cookie, 0, b"n"), vec![]);
    let mut bad_attr = sv_plain(Class::Request, Method::Refresh, 2, vec![Attribute::Lifetime(5)]);
    bad_attr[23] = 3;
    let actions = s.handle_client_datagram(c, &bad_attr, 0, b"n");
    let reply = sv_reply(&actions, c);
    assert_eq!(reply.method, Method::Refresh);
    assert_eq!(reply.transaction_id, sv_id(2));
    assert_eq!(sv_error_code(&reply), 400);
    let mut bad_indication = sv_plain(Class::Indication, Method::Send, 3, vec![Attribute::Lifetime(5)]);
    bad_indication[23] = 3;
    assert_eq!(s.handle_client_datagram(c, &bad_indication, 0, b"n"), vec![]);
}

#[test]
fn tick_closes_the_relays_of_expired_allocations() {
    let mut s = sv_allocated();
    let c = sv_client(1);
    assert_eq!(s.tick(1599), vec![]);
    assert!(s.lookup(c, 1599).is_some());
    assert_eq!(s.tick(1600), vec![Action::CloseRelay { relay: sv_relay(50000) }]);
    assert!(s.lookup(c, 0).is_none());
    assert_eq!(s.tick(1600), vec![]);
    let stale = sv_signed(Method::Refresh, 3, b"nonce-1", vec![]);
    assert_eq!(s.tick(4600), vec![]);
    let actions = s.handle_client_datagram(c, &stale, 1000, b"nonce-2");
    assert_eq!(sv_error_code(&sv_reply(&actions, c)), 438);
}

#[test]
fn release_gives_up_an_allocation() {
    let mut s = sv_allocated();
    let c = sv_client(1);
    assert_eq!(s.release(sv_client(2)), None);
    assert_eq!(s.release(c), Some(sv_relay(50000)));
    assert!(s.lookup(c, 1000).is_none());
    assert_eq!(s.release(c), None);
    assert_eq!(s.handle_peer_datagram(50000, sv_addr(7, 1), b"x", 1000, sv_id(1)), vec![]);
}

#[test]
fn one_client_does_not_touch_the_allocation_of_another() {
    let mut s = sv_allocated();
    let c1 = sv_client(1);
    let c2 = sv_client(2);
    let p = sv_addr(7, 7000);
    let alloc2 = sv_signed(Method::Allocate, 10, b"nonce-1", vec![Attribute::RequestedTransport(17)]);
    let actions = s.handle_client_datagram(c2, &alloc2, 1001, b"unused");
    assert_eq!(actions[0], Action::OpenRelay { relay: sv_relay(50001) });
    let permit = sv_signed(Method::CreatePermission, 11, b"nonce-1", vec![Attribute::XorPeerAddress(p)]);
    s.handle_client_datagram(c2, &permit, 1001, b"unused");
    assert_eq!(s.handle_peer_datagram(50000, p, b"x", 1002, sv_id(1)), vec![]);
    assert_eq!(s.handle_peer_datagram(50001, p, b"x", 1002, sv_id(1)).len(), 1);
    let gone = sv_signed(Method::Refresh, 12, b"nonce-1", vec![Attribute::Lifetime(0)]);
    s.handle_client_datagram(c2, &gone, 1003, b"unused");
    assert!(s.lookup(c1, 1003).is_some());
    assert!(s.lookup(c2, 1003).is_none());
}

#[test]
fn allocate_beyond_the_quota_is_answered_with_486() {
    let mut creds = CredentialStore::new();
    assert!(creds.add_password("bns", "bns", "password"));
    let mut s = Server::new(
        ServerConfig {
            realm: b"bns".to_vec(),
            nonce_lifetime: 3600,
            table: TableConfig {
                relay_ip: IpAddress::V4(0x7F00_0001),
                min_port: 50000,
                max_port: 50010,
                default_lifetime: 600,
                max_lifetime: 3600,
                user_quota: 1,
                permission_lifetime: 300,
                channel_lifetime: 600,
            },
        },
        creds,
    );
    let plain = sv_plain(Class::Request, Method::Allocate, 1, vec![]);
    s.handle_client_datagram(sv_client(1), &plain, 0, b"nonce-1");
    let first = sv_signed(Method::Allocate, 2, b"nonce-1", vec![Attribute::RequestedTransport(17)]);
    let actions = s.handle_client_datagram(sv_client(1), &first, 1, b"unused");
    assert_eq!(actions[0], Action::OpenRelay { relay: sv_relay(50000) });
    let second = sv_signed(Method::Allocate, 3, b"nonce-1", vec![Attribute::RequestedTransport(17)]);
    let actions = s.handle_client_datagram(sv_client(2), &second, 1, b"unused");
    assert_eq!(actions.len(), 1);
    assert_eq!(sv_error_code(&sv_reply(&actions, sv_client(2))), 486);
    assert!(s.lookup(sv_client(2), 1).is_none());
}

#[test]
fn tick_removes_expired_permissions_and_bindings() {
    let mut s = sv_allocated();
    let c = sv_client(1);
    let p = sv_addr(7, 7000);
    let bind = sv_signed(
        Method::ChannelBind,
        3,
        b"nonce-1",
        vec![Attribute::ChannelNumber(0x4000), Attribute::XorPeerAddress(p)],
    );
    s.handle_client_datagram(c, &bind, 1001, b"unused");
    let refresh = sv_signed(Method::Refresh, 4, b"nonce-1", vec![Attribute::Lifetime(3600)]);
    s.handle_client_datagram(c, &refresh, 1001, b"unused");
    assert_eq!(s.tick(1300), vec![]);
    assert!(s.lookup(c, 1300).unwrap().peers.has_permission(p.ip, 1001));
    assert_eq!(s.tick(1301), vec![]);
    assert!(!s.lookup(c, 1301).unwrap().peers.has_permission(p.ip, 1001));
    assert_eq!(s.lookup(c, 1301).unwrap().peers.peer_for(0x4000, 1001), Some(p));
    assert_eq!(s.tick(1601), vec![]);
    assert_eq!(s.lookup(c, 1601).unwrap().peers.peer_for(0x4000, 1001), None);
}

#[test]
fn attributes_after_the_integrity_tag_are_not_looked_at() {
    let mut s = sv_allocated();
    let c = sv_client(1);
    let mut raw = sv_signed(Method::Refresh, 3, b"nonce-1", vec![]);
    raw.extend_from_slice(&[0x00, 0x0D, 0x00, 0x04, 0, 0, 0, 0]);
    let len = (raw.len() - 20) as u16;
    raw[2..4].copy_from_slice(&len.to_be_bytes());
    assert_eq!(Message::decode(&raw).unwrap().lifetime(), Some(0));
    let actions = s.handle_client_datagram(c, &raw, 1100, b"unused");
    assert_eq!(actions.len(), 1);
    let reply = sv_reply(&actions, c);
    assert_eq!(reply.class, Class::SuccessResponse);
    assert_eq!(reply.attributes[0], Attribute::Lifetime(600));
    assert_eq!(s.lookup(c, 1100).unwrap().expires, 1700);
}
