use stun::message::Setter;
use turnsrv::addr::TransactionId;
use turnsrv::attr::Attribute;
use turnsrv::auth::{
    append_integrity, seal, signed_part, signing_bytes, verdict_for_mac, AuthOutcome,
    Authenticator,
};
use turnsrv::credentials::{CredentialStore, NonceTable};
use turnsrv::message::{Class, Message, Method};

const AU_KEY: [u8; 16] = [
    0x84, 0x93, 0xfb, 0xc5, 0x3b, 0xa5, 0x82, 0xfb, 0x4c, 0x04, 0x4c, 0x45, 0x6b, 0xdc, 0x40, 0xeb,
];

fn au_id() -> TransactionId {
    TransactionId { w0: 0x0102_0304, w1: 0x0506_0708, w2: 0x090a_0b0c }
}

fn au_store() -> CredentialStore {
    let mut s = CredentialStore::new();
    assert!(s.add_password("user", "realm", "pass"));
    s
}

fn au_request(attributes: Vec<Attribute>) -> Message {
    Message { class: Class::Request, method: Method::Allocate, transaction_id: au_id(), attributes }
}

fn au_credentials(nonce: &[u8]) -> Vec<Attribute> {
    vec![
        Attribute::Username(b"user".to_vec()),
        Attribute::Realm(b"realm".to_vec()),
        Attribute::Nonce(nonce.to_vec()),
        Attribute::RequestedTransport(17),
    ]
}

fn au_hmac(key: &[u8], data: &[u8]) -> Vec<u8> {
    let k = ring::hmac::Key::new(ring::hmac::HMAC_SHA1_FOR_LEGACY_USE_ONLY, key);
    ring::hmac::sign(&k, data).as_ref().to_vec()
}

/// An authenticator that has handed out nonce "n1" at instant 100.
fn au_challenged() -> Authenticator {
    let mut a = Authenticator::new(b"realm", 3600, au_store());
    let plain = au_request(vec![]);
    let raw = plain.encode().unwrap();
    assert!(matches!(a.authenticate(&plain, &raw, 100, b"n1"), AuthOutcome::Challenge));
    a
}

#[test]
fn lookup_gives_the_key_of_a_known_user_only() {
    let mut s = CredentialStore::new();
    assert_eq!(s.lookup(b"bns"), None);
    assert!(s.add(b"bns", &[1, 2, 3]));
    assert!(s.add(b"other", &[4]));
    assert_eq!(s.lookup(b"bns"), Some(&vec![1, 2, 3]));
    assert_eq!(s.lookup(b"other"), Some(&vec![4]));
    assert_eq!(s.lookup(b"bn"), None);
    assert_eq!(s.lookup(b"bnss"), None);
    assert_eq!(s.lookup(b""), None);
}

#[test]
fn add_puts_the_new_key_in_the_place_of_the_old() {
    let mut s = CredentialStore::new();
    assert!(s.add(b"bns", &[1, 2, 3]));
    assert!(s.add(b"bns", &[9]));
    assert_eq!(s.lookup(b"bns"), Some(&vec![9]));
}

#[test]
fn add_password_files_the_long_term_key() {
    let s = au_store();
    assert_eq!(s.lookup(b"user"), Some(&AU_KEY.to_vec()));
    assert_eq!(s.lookup(b"realm"), None);
}

#[test]
fn add_password_matches_the_turn_crate() {
    let mut s = CredentialStore::new();
    assert!(s.add_password("60", "webrtc.rs", "HWbnm25GwSj6jiHTEDMTO5D7aBw="));
    assert_eq!(
        s.lookup(b"60"),
        Some(&vec![56, 22, 47, 139, 198, 127, 13, 188, 171, 80, 23, 29, 195, 148, 216, 224])
    );
    assert!(s.add_password("bns", "bns", "password"));
    assert_eq!(
        s.lookup(b"bns").unwrap(),
        &turn::auth::generate_auth_key("bns", "bns", "password")
    );
    assert_ne!(s.lookup(b"bns").unwrap(), &b"bns".to_vec());
    assert_ne!(s.lookup(b"bns").unwrap(), &b"password".to_vec());
}

#[test]
fn add_password_files_under_the_bytes_of_the_user_name() {
    let mut s = CredentialStore::new();
    assert!(s.add_password("zo\u{eb}", "r", "p"));
    assert!(s.lookup(&[b'z', b'o', 0xc3, 0xab]).is_some());
    assert!(s.lookup(&[b'z', b'o', 0xeb]).is_none());
}

#[test]
fn nonce_is_fresh_strictly_before_its_lifetime_has_passed() {
    let mut t = NonceTable::new(60);
    assert!(!t.is_fresh(b"a", 0));
    t.issue(b"a", 100);
    assert!(t.is_fresh(b"a", 100));
    assert!(t.is_fresh(b"a", 159));
    assert!(!t.is_fresh(b"a", 160));
    assert!(!t.is_fresh(b"b", 100));
    t.issue(b"a", 150);
    assert!(t.is_fresh(b"a", 209));
    assert!(!t.is_fresh(b"a", 210));
}

#[test]
fn nonce_sweep_forgets_stale_nonces() {
    let mut t = NonceTable::new(60);
    t.issue(b"a", 100);
    t.issue(b"b", 130);
    t.sweep(160);
    assert!(!t.is_fresh(b"a", 100));
    assert!(t.is_fresh(b"b", 160));
    t.sweep(190);
    assert!(!t.is_fresh(b"b", 160));
}

#[test]
fn request_without_integrity_is_challenged() {
    let mut a = Authenticator::new(b"realm", 3600, au_store());
    assert_eq!(a.realm_bytes(), &b"realm".to_vec());
    let m = au_request(au_credentials(b"n0"));
    let raw = m.encode().unwrap();
    assert!(matches!(a.authenticate(&m, &raw, 100, b"fresh"), AuthOutcome::Challenge));
    let sealed = seal(&au_request(au_credentials(b"fresh")), &AU_KEY).unwrap();
    let again = Message::decode(&sealed).unwrap();
    assert!(matches!(a.authenticate(&again, &sealed, 101, b"unused"), AuthOutcome::Granted(_)));
}

#[test]
fn request_with_integrity_but_without_credentials_is_a_bad_request() {
    for missing in 0..3usize {
        let mut a = au_challenged();
        let mut attrs = au_credentials(b"n1");
        attrs.remove(missing);
        let raw = seal(&au_request(attrs), &AU_KEY).unwrap();
        let m = Message::decode(&raw).unwrap();
        assert!(matches!(a.authenticate(&m, &raw, 101, b"n2"), AuthOutcome::BadRequest));
    }
}

#[test]
fn unknown_or_old_nonce_is_stale_even_with_the_right_tag() {
    let mut a = au_challenged();
    let raw = seal(&au_request(au_credentials(b"never")), &AU_KEY).unwrap();
    let m = Message::decode(&raw).unwrap();
    assert!(matches!(a.authenticate(&m, &raw, 101, b"n2"), AuthOutcome::StaleNonce));
    let raw = seal(&au_request(au_credentials(b"n1")), &AU_KEY).unwrap();
    let m = Message::decode(&raw).unwrap();
    assert!(matches!(a.authenticate(&m, &raw, 3699, b"n3"), AuthOutcome::Granted(_)));
    assert!(matches!(a.authenticate(&m, &raw, 3700, b"n4"), AuthOutcome::StaleNonce));
    let raw = seal(&au_request(au_credentials(b"n4")), &AU_KEY).unwrap();
    let m = Message::decode(&raw).unwrap();
    assert!(matches!(a.authenticate(&m, &raw, 3701, b"n5"), AuthOutcome::Granted(_)));
}

#[test]
fn unknown_user_and_wrong_key_fail_alike() {
    let mut a = au_challenged();
    let mut attrs = au_credentials(b"n1");
    attrs[0] = Attribute::Username(b"nobody".to_vec());
    let raw = seal(&au_request(attrs), &AU_KEY).unwrap();
    let m = Message::decode(&raw).unwrap();
    assert!(matches!(a.authenticate(&m, &raw, 101, b"n2"), AuthOutcome::Unauthorized));
    let raw = seal(&au_request(au_credentials(b"n1")), &[0u8; 16]).unwrap();
    let m = Message::decode(&raw).unwrap();
    assert!(matches!(a.authenticate(&m, &raw, 101, b"n2"), AuthOutcome::Unauthorized));
    let raw = seal(&au_request(au_credentials(b"n1")), &AU_KEY).unwrap();
    let m = Message::decode(&raw).unwrap();
    assert!(matches!(a.authenticate(&m, &raw, 101, b"n2"), AuthOutcome::Granted(_)));
}

#[test]
fn granted_names_the_user_the_realm_and_the_key() {
    let mut a = au_challenged();
    let raw = seal(&au_request(au_credentials(b"n1")), &AU_KEY).unwrap();
    let m = Message::decode(&raw).unwrap();
    match a.authenticate(&m, &raw, 101, b"n2") {
        AuthOutcome::Granted(who) => {
            assert_eq!(who.username, b"user".to_vec());
            assert_eq!(who.realm, b"realm".to_vec());
            assert_eq!(who.key, AU_KEY.to_vec());
        }
        other => panic!("{:?}", other),
    }
}

#[test]
fn a_changed_datagram_is_not_authorized() {
    let mut a = au_challenged();
    let raw = seal(&au_request(au_credentials(b"n1")), &AU_KEY).unwrap();
    for at in [1usize, 9, 25, raw.len() - 1, raw.len() - 20] {
        let mut bent = raw.clone();
        bent[at] ^= 0x01;
        if let Ok(m) = Message::decode(&bent) {
            if m.method == Method::Allocate && m.text(0x0006) == Some(&b"user".to_vec()) {
                assert!(
                    matches!(a.authenticate(&m, &bent, 101, b"n2"), AuthOutcome::Unauthorized),
                    "{}",
                    at
                );
            }
        }
    }
}

#[test]
fn a_request_signed_by_the_stun_crate_is_granted() {
    let mut theirs = stun::message::Message::new();
    theirs.transaction_id = stun::agent::TransactionId([1, 2, 3, 4, 5, 6, 7, 8, 9, 10, 11, 12]);
    theirs.set_type(stun::message::MessageType::new(
        stun::message::METHOD_ALLOCATE,
        stun::message::CLASS_REQUEST,
    ));
    theirs.write_header();
    stun::textattrs::TextAttribute::new(stun::attributes::ATTR_USERNAME, "user".to_owned())
        .add_to(&mut theirs)
        .unwrap();
    stun::textattrs::TextAttribute::new(stun::attributes::ATTR_REALM, "realm".to_owned())
        .add_to(&mut theirs)
        .unwrap();
    stun::textattrs::TextAttribute::new(stun::attributes::ATTR_NONCE, "n1".to_owned())
        .add_to(&mut theirs)
        .unwrap();
    turn::proto::reqtrans::RequestedTransport { protocol: turn::proto::PROTO_UDP }
        .add_to(&mut theirs)
        .unwrap();
    stun::integrity::MessageIntegrity::new_long_term_integrity(
        "user".to_owned(),
        "realm".to_owned(),
        "pass".to_owned(),
    )
    .add_to(&mut theirs)
    .unwrap();
    let ours = seal(&au_request(au_credentials(b"n1")), &AU_KEY).unwrap();
    assert_eq!(ours, theirs.raw);
    let mut a = au_challenged();
    let m = Message::decode(&theirs.raw).unwrap();
    assert!(matches!(a.authenticate(&m, &theirs.raw, 101, b"n2"), AuthOutcome::Granted(_)));
}

#[test]
fn the_stun_crate_accepts_a_sealed_message() {
    let m = Message {
        class: Class::SuccessResponse,
        method: Method::Refresh,
        transaction_id: au_id(),
        attributes: vec![Attribute::Lifetime(600), Attribute::Username(b"odd".to_vec())],
    };
    let raw = seal(&m, &AU_KEY).unwrap();
    let mut theirs = stun::message::Message::new();
    theirs.raw = raw.clone();
    theirs.decode().unwrap();
    assert!(stun::integrity::MessageIntegrity(AU_KEY.to_vec()).check(&mut theirs).is_ok());
    assert!(stun::integrity::MessageIntegrity(vec![0u8; 16]).check(&mut theirs).is_err());
    let back = Message::decode(&raw).unwrap();
    assert_eq!(back.attributes.len(), 3);
    assert_eq!(back.attributes[0], Attribute::Lifetime(600));
}

#[test]
fn the_tag_is_the_hmac_of_the_signing_bytes() {
    let m = au_request(au_credentials(b"n1"));
    let signed = signing_bytes(&m).unwrap();
    let plain = m.encode().unwrap();
    assert_eq!(signed.len(), plain.len());
    assert_eq!(&signed[..2], &plain[..2]);
    assert_eq!(&signed[4..], &plain[4..]);
    assert_eq!(u16::from_be_bytes([signed[2], signed[3]]), (plain.len() - 20 + 24) as u16);
    let raw = seal(&m, &AU_KEY).unwrap();
    assert_eq!(raw.len(), signed.len() + 24);
    assert_eq!(&raw[..signed.len()], &signed[..]);
    assert_eq!(&raw[signed.len()..signed.len() + 4], &[0x00, 0x08, 0x00, 0x14]);
    let tag = au_hmac(&AU_KEY, &signed);
    assert_eq!(&raw[signed.len() + 4..], &tag[..]);
    assert_ne!(&tag[..16], &AU_KEY[..]);
    assert_eq!(
        au_hmac(&[0x0b; 20], b"Hi There"),
        vec![
            0xb6, 0x17, 0x31, 0x86, 0x55, 0x05, 0x72, 0x64, 0xe2, 0x8b, 0xc0, 0xb6, 0xfb, 0x37,
            0x8c, 0x8e, 0xf1, 0x46, 0xbe, 0x00
        ]
    );
}

#[test]
fn signed_part_splits_a_datagram_at_its_integrity_attribute() {
    let m = au_request(au_credentials(b"n1"));
    let signed = signing_bytes(&m).unwrap();
    let mut raw = seal(&m, &AU_KEY).unwrap();
    let tag = raw[raw.len() - 20..].to_vec();
    assert_eq!(signed_part(&raw), Some((signed.clone(), tag.clone())));
    // An attribute after the tag is not signed, though the header counts it.
    raw.extend_from_slice(&[0x80, 0x28, 0x00, 0x04, 1, 2, 3, 4]);
    let len = (raw.len() - 20) as u16;
    raw[2..4].copy_from_slice(&len.to_be_bytes());
    assert_eq!(signed_part(&raw), Some((signed, tag)));
    assert_eq!(signed_part(&m.encode().unwrap()), None);
    assert_eq!(signed_part(&[]), None);
    assert_eq!(signed_part(&raw[..raw.len() - 12]), None);
}

#[test]
fn append_integrity_exact_bytes() {
    assert_eq!(
        append_integrity(vec![0xaa, 0xbb], &[1, 2, 3]),
        vec![0xaa, 0xbb, 0x00, 0x08, 0x00, 0x14, 1, 2, 3]
    );
}

#[test]
fn verdict_goes_by_the_equality_of_the_tags() {
    assert!(matches!(verdict_for_mac(&[1, 2], &[1, 2], b"u", b"r", b"k"), AuthOutcome::Granted(_)));
    assert!(matches!(verdict_for_mac(&[1, 2], &[1, 3], b"u", b"r", b"k"), AuthOutcome::Unauthorized));
    assert!(matches!(verdict_for_mac(&[1, 2], &[1], b"u", b"r", b"k"), AuthOutcome::Unauthorized));
    assert!(matches!(verdict_for_mac(&[], &[], b"u", b"r", b"k"), AuthOutcome::Granted(_)));
}

#[test]
fn seal_refuses_what_cannot_be_sent() {
    let bad = au_request(vec![Attribute::ErrorCode { code: 100, reason: vec![] }]);
    assert_eq!(seal(&bad, &AU_KEY), None);
    assert_eq!(signing_bytes(&bad), None);
    let full = au_request(vec![Attribute::Data(vec![0u8; 0xFFFF - 4 - 3])]);
    assert!(full.encode().is_some());
    assert_eq!(seal(&full, &AU_KEY), None);
    let fits = au_request(vec![Attribute::Data(vec![0u8; 0xFFFF - 4 - 3 - 24])]);
    assert_eq!(seal(&fits, &AU_KEY).unwrap().len(), 20 + 0xFFFC);
}

#[test]
fn sweep_makes_old_nonces_stale() {
    let mut a = au_challenged();
    a.sweep(3700);
    let raw = seal(&au_request(au_credentials(b"n1")), &AU_KEY).unwrap();
    let m = Message::decode(&raw).unwrap();
    assert!(matches!(a.authenticate(&m, &raw, 200, b"n2"), AuthOutcome::StaleNonce));
}
