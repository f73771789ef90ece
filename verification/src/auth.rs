//! Authentication of requests by long-term credentials, and the integrity
//! tag on what the server answers.

use vstd::prelude::*;
use vstd::slice::slice_subrange;
use crate::addr::TransactionId;
use crate::attr::{
    attr_wf, encode_attr, type_code, AttributeSpec, ATTR_MESSAGE_INTEGRITY, ATTR_NONCE,
    ATTR_REALM, ATTR_USERNAME,
};
use crate::credentials::{key_of, nonce_fresh, Credential, CredentialStore, NonceTable};
use crate::crypto::{hmac_sha1, hmac_sha1_of, MAC_LEN, MAX_HMAC_INPUT};
use crate::message::{
    encode_attrs, encode_message, first_of, has_type, header_bytes, is_first,
    lemma_encode_attr_shape, lemma_encode_attrs_push, lemma_first_of, lemma_header_bytes_len,
    message_type, text_of, write_header, Message, MessageSpec, HEADER_LEN,
};
use crate::wire::{
    bytes_eq, copy_range, lemma_u16_at_bytes, lemma_u16_at_concat, lemma_u16_at_suffix, padded,
    padding, push_bytes, push_u16, read_u16, u16_at, u16_bytes, zeros,
};

verus! {

/// Length of a MESSAGE-INTEGRITY attribute on the wire.
pub const INTEGRITY_ATTR_LEN: usize = 24;

/// Who a request comes from.
#[derive(Debug)]
pub struct Identity {
    pub username: Vec<u8>,
    pub realm: Vec<u8>,
    pub key: Vec<u8>,
}

/// What the check of a request's credentials comes to.
#[derive(Debug)]
pub enum AuthOutcome {
    /// The request is from this user.
    Granted(Identity),
    /// The request bears no credentials: the client is to try again with
    /// the realm and the nonce that it is sent.
    Challenge,
    /// The request bears an integrity tag but lacks the user name, the
    /// realm or the nonce.
    BadRequest,
    /// The nonce is unknown or too old: the client is to try again with
    /// the nonce that it is sent.
    StaleNonce,
    /// The user is unknown or the integrity tag is wrong.
    Unauthorized,
}

/// The mathematical value of an [`AuthOutcome`].
pub ghost enum AuthVerdict {
    Granted { username: Seq<u8>, realm: Seq<u8>, key: Seq<u8> },
    Challenge,
    BadRequest,
    StaleNonce,
    Unauthorized,
}

impl View for AuthOutcome {
    type V = AuthVerdict;

    open spec fn view(&self) -> AuthVerdict {
        match *self {
            AuthOutcome::Granted(who) => AuthVerdict::Granted {
                username: who.username@,
                realm: who.realm@,
                key: who.key@,
            },
            AuthOutcome::Challenge => AuthVerdict::Challenge,
            AuthOutcome::BadRequest => AuthVerdict::BadRequest,
            AuthOutcome::StaleNonce => AuthVerdict::StaleNonce,
            AuthOutcome::Unauthorized => AuthVerdict::Unauthorized,
        }
    }
}

/// Where the attribute after the one at `pos` starts in datagram `b`.
pub open spec fn next_tlv(b: Seq<u8>, pos: int) -> int {
    pos + 4 + padded(u16_at(b, pos + 2) as int)
}

/// Where the first attribute with type code `typ` starts in datagram `b`,
/// going from attribute to attribute from `pos` on.
pub open spec fn tlv_offset(b: Seq<u8>, pos: int, typ: u16) -> Option<int>
    decreases b.len() - pos,
{
    if pos < 0 || pos + 4 > b.len() {
        None
    } else if u16_at(b, pos) == typ {
        Some(pos)
    } else if next_tlv(b, pos) > b.len() {
        None
    } else {
        tlv_offset(b, next_tlv(b, pos), typ)
    }
}

/// What the integrity tag of datagram `raw` is computed over, and the tag
/// that `raw` carries: the bytes before the MESSAGE-INTEGRITY attribute,
/// with the length in the header set to end with that attribute, and the
/// attribute's twenty bytes.
pub open spec fn signed_part_of(raw: Seq<u8>) -> Option<(Seq<u8>, Seq<u8>)> {
    match tlv_offset(raw, HEADER_LEN as int, ATTR_MESSAGE_INTEGRITY) {
        None => None,
        Some(off) => if off + INTEGRITY_ATTR_LEN > raw.len() || off + 4 > 0xFFFF || u16_at(
            raw,
            off + 2,
        ) != MAC_LEN {
            None
        } else {
            Some(
                (
                    raw.subrange(0, 2) + u16_bytes((off + 4) as u16) + raw.subrange(4, off),
                    raw.subrange(off + 4, off + INTEGRITY_ATTR_LEN),
                ),
            )
        },
    }
}

/// What a computed tag and the tag that the request carries come to.
pub open spec fn mac_verdict(
    computed: Seq<u8>,
    claimed: Seq<u8>,
    username: Seq<u8>,
    realm: Seq<u8>,
    key: Seq<u8>,
) -> AuthVerdict {
    if computed == claimed {
        AuthVerdict::Granted { username, realm, key }
    } else {
        AuthVerdict::Unauthorized
    }
}

/// What the check of the credentials of a request comes to.
///
/// `attrs` are the request's attributes and `raw` is the datagram it came
/// in; `nonces` holds the instant of issue of each nonce, and `creds` the
/// known users.
pub open spec fn auth_verdict(
    attrs: Seq<AttributeSpec>,
    raw: Seq<u8>,
    nonces: Map<Seq<u8>, u64>,
    nonce_lifetime: u64,
    creds: Map<Seq<u8>, Credential>,
    now: u64,
) -> AuthVerdict {
    if !has_type(attrs, ATTR_MESSAGE_INTEGRITY) {
        AuthVerdict::Challenge
    } else {
        match (
            text_of(attrs, ATTR_USERNAME),
            text_of(attrs, ATTR_REALM),
            text_of(attrs, ATTR_NONCE),
        ) {
            (Some(username), Some(realm), Some(nonce)) => if !nonce_fresh(
                nonces,
                nonce,
                now,
                nonce_lifetime,
            ) {
                AuthVerdict::StaleNonce
            } else {
                match (key_of(creds, username), signed_part_of(raw)) {
                    (Some(key), Some((input, claimed))) => mac_verdict(
                        hmac_sha1_of(key, input),
                        claimed,
                        username,
                        realm,
                        key,
                    ),
                    _ => AuthVerdict::Unauthorized,
                }
            },
            _ => AuthVerdict::BadRequest,
        }
    }
}

/// The nonces after a request was checked at `now`: a challenge hands out
/// the nonce `fresh`.
pub open spec fn nonces_after(
    before: Map<Seq<u8>, u64>,
    verdict: AuthVerdict,
    fresh: Seq<u8>,
    now: u64,
) -> Map<Seq<u8>, u64> {
    match verdict {
        AuthVerdict::Challenge => before.insert(fresh, now),
        AuthVerdict::StaleNonce => before.insert(fresh, now),
        _ => before,
    }
}

fn find_tlv(raw: &[u8], typ: u16) -> (r: Option<usize>)
    ensures
        match r {
            Some(off) => tlv_offset(raw@, HEADER_LEN as int, typ) == Some(off as int) && HEADER_LEN
                <= off && off + 4 <= raw@.len(),
            None => tlv_offset(raw@, HEADER_LEN as int, typ).is_none(),
        },
{
    if raw.len() < HEADER_LEN {
        return None;
    }
    let mut pos: usize = HEADER_LEN;
    loop
        invariant
            HEADER_LEN <= pos <= raw@.len(),
            tlv_offset(raw@, HEADER_LEN as int, typ) == tlv_offset(raw@, pos as int, typ),
        decreases raw@.len() - pos,
    {
        if raw.len() - pos < 4 {
            return None;
        }
        if read_u16(raw, pos) == typ {
            return Some(pos);
        }
        let len: usize = read_u16(raw, pos + 2) as usize;
        let pad: usize = (4 - len % 4) % 4;
        if raw.len() - pos - 4 < len + pad {
            return None;
        }
        pos = pos + 4 + len + pad;
    }
}

/// Splits a datagram into what its integrity tag is computed over and the
/// tag that it carries.
pub fn signed_part(raw: &[u8]) -> (r: Option<(Vec<u8>, Vec<u8>)>)
    ensures
        match r {
            Some((input, claimed)) => signed_part_of(raw@) == Some((input@, claimed@))
                && input@.len() <= 0xFFFF,
            None => signed_part_of(raw@).is_none(),
        },
{
    let off = match find_tlv(raw, ATTR_MESSAGE_INTEGRITY) {
        None => {
            return None;
        },
        Some(off) => off,
    };
    if raw.len() - off < INTEGRITY_ATTR_LEN || off + 4 > 0xFFFF || read_u16(raw, off + 2)
        != MAC_LEN as u16 {
        return None;
    }
    let mut input = copy_range(raw, 0, 2);
    push_u16(&mut input, (off + 4) as u16);
    push_bytes(&mut input, slice_subrange(raw, 4, off));
    let claimed = copy_range(raw, off + 4, off + INTEGRITY_ATTR_LEN);
    proof {
        lemma_u16_at_bytes((off + 4) as u16);
    }
    Some((input, claimed))
}

/// Decides on a request from the tag computed for it and the tag that it
/// carries.
pub fn verdict_for_mac(
    computed: &[u8],
    claimed: &[u8],
    username: &[u8],
    realm: &[u8],
    key: &[u8],
) -> (r: AuthOutcome)
    ensures
        r@ == mac_verdict(computed@, claimed@, username@, realm@, key@),
{
    if bytes_eq(computed, claimed) {
        let who = Identity {
            username: copy_range(username, 0, username.len()),
            realm: copy_range(realm, 0, realm.len()),
            key: copy_range(key, 0, key.len()),
        };
        assert(who.username@ =~= username@);
        assert(who.realm@ =~= realm@);
        assert(who.key@ =~= key@);
        AuthOutcome::Granted(who)
    } else {
        AuthOutcome::Unauthorized
    }
}

/// The realm, the nonces and the users that requests are checked against.
#[derive(Debug)]
pub struct Authenticator {
    realm: Vec<u8>,
    nonces: NonceTable,
    credentials: CredentialStore,
}

impl Authenticator {
    /// The realm that the server speaks for.
    pub closed spec fn realm(&self) -> Seq<u8> {
        self.realm@
    }

    /// The instant of issue of each nonce.
    pub closed spec fn nonces(&self) -> Map<Seq<u8>, u64> {
        self.nonces.issued()
    }

    /// How long a nonce is good for.
    pub closed spec fn nonce_lifetime(&self) -> u64 {
        self.nonces.lifetime()
    }

    /// The known users.
    pub closed spec fn credentials(&self) -> Map<Seq<u8>, Credential> {
        self.credentials.credentials()
    }

    /// The invariant of the authenticator.
    pub closed spec fn wf(&self) -> bool {
        self.nonces.wf() && self.credentials.wf()
    }

    /// An authenticator for `realm` that has handed out no nonce.
    pub fn new(realm: &[u8], nonce_lifetime: u64, credentials: CredentialStore) -> (a:
        Authenticator)
        requires
            credentials.wf(),
        ensures
            a.wf(),
            a.realm() == realm@,
            a.nonce_lifetime() == nonce_lifetime,
            a.nonces() == Map::<Seq<u8>, u64>::empty(),
            a.credentials() == credentials.credentials(),
    {
        let a = Authenticator {
            realm: copy_range(realm, 0, realm.len()),
            nonces: NonceTable::new(nonce_lifetime),
            credentials,
        };
        assert(a.realm@ =~= realm@);
        a
    }

    /// The realm that the server speaks for.
    pub fn realm_bytes(&self) -> (r: &Vec<u8>)
        ensures
            r@ == self.realm(),
    {
        &self.realm
    }

    /// Forgets the nonces that are stale at `now`.
    pub fn sweep(&mut self, now: u64)
        requires
            old(self).wf(),
        ensures
            final(self).wf(),
            final(self).realm() == old(self).realm(),
            final(self).nonce_lifetime() == old(self).nonce_lifetime(),
            final(self).credentials() == old(self).credentials(),
            final(self).nonces() == crate::credentials::fresh_nonces(
                old(self).nonces(),
                now,
                old(self).nonce_lifetime(),
            ),
    {
        self.nonces.sweep(now);
    }

    /// Checks the credentials of request `msg`, which came in datagram
    /// `raw`. Where the client is to try again, `fresh_nonce` is recorded as
    /// handed out at `now`.
    pub fn authenticate(&mut self, msg: &Message, raw: &[u8], now: u64, fresh_nonce: &[u8]) -> (r:
        AuthOutcome)
        requires
            old(self).wf(),
        ensures
            final(self).wf(),
            final(self).realm() == old(self).realm(),
            final(self).nonce_lifetime() == old(self).nonce_lifetime(),
            final(self).credentials() == old(self).credentials(),
            r@ == auth_verdict(
                msg@.attributes,
                raw@,
                old(self).nonces(),
                old(self).nonce_lifetime(),
                old(self).credentials(),
                now,
            ),
            final(self).nonces() == nonces_after(old(self).nonces(), r@, fresh_nonce@, now),
    {
        if msg.find(ATTR_MESSAGE_INTEGRITY).is_none() {
            self.nonces.issue(fresh_nonce, now);
            return AuthOutcome::Challenge;
        }
        let username = msg.text(ATTR_USERNAME);
        let realm = msg.text(ATTR_REALM);
        let nonce = msg.text(ATTR_NONCE);
        let (username, realm, nonce) = match (username, realm, nonce) {
            (Some(u), Some(r), Some(n)) => (u, r, n),
            _ => {
                return AuthOutcome::BadRequest;
            },
        };
        if !self.nonces.is_fresh(nonce.as_slice(), now) {
            self.nonces.issue(fresh_nonce, now);
            return AuthOutcome::StaleNonce;
        }
        let key = match self.credentials.lookup(username.as_slice()) {
            None => {
                return AuthOutcome::Unauthorized;
            },
            Some(k) => k,
        };
        let (input, claimed) = match signed_part(raw) {
            None => {
                return AuthOutcome::Unauthorized;
            },
            Some(parts) => parts,
        };
        let computed = hmac_sha1(key.as_slice(), input.as_slice());
        verdict_for_mac(
            computed.as_slice(),
            claimed.as_slice(),
            username.as_slice(),
            realm.as_slice(),
            key.as_slice(),
        )
    }
}

/// What the integrity tag of an answer is computed over: the message on the
/// wire, with the length in the header counting the tag's attribute that
/// is still to come.
pub open spec fn signing_input(m: MessageSpec) -> Seq<u8> {
    header_bytes(m.header(), (m.body().len() + INTEGRITY_ATTR_LEN) as u16) + m.body()
}

/// The message with a MESSAGE-INTEGRITY attribute of value `mac` at its end.
pub open spec fn with_integrity(m: MessageSpec, mac: Seq<u8>) -> MessageSpec {
    MessageSpec {
        class: m.class,
        method: m.method,
        transaction_id: m.transaction_id,
        attributes: m.attributes.push(AttributeSpec::MessageIntegrity(mac)),
    }
}

/// Whether the message can be sent with an integrity tag under `key`.
pub open spec fn sealable(m: MessageSpec, key: Seq<u8>) -> bool {
    &&& m.attributes_wf()
    &&& m.body().len() + INTEGRITY_ATTR_LEN <= 0xFFFF
    &&& key.len() <= MAX_HMAC_INPUT
}

/// The message with its integrity tag under `key`.
pub open spec fn sealed(m: MessageSpec, key: Seq<u8>) -> MessageSpec {
    with_integrity(m, hmac_sha1_of(key, signing_input(m)))
}

/// The wire form of a MESSAGE-INTEGRITY attribute of value `mac`.
pub open spec fn integrity_bytes(mac: Seq<u8>) -> Seq<u8> {
    u16_bytes(ATTR_MESSAGE_INTEGRITY) + u16_bytes(MAC_LEN as u16) + mac
}

/// A message with a tag at its end is, on the wire, what the tag is
/// computed over followed by the tag's attribute.
pub proof fn lemma_with_integrity(m: MessageSpec, mac: Seq<u8>)
    requires
        m.attributes_wf(),
        m.body().len() + INTEGRITY_ATTR_LEN <= 0xFFFF,
        mac.len() == MAC_LEN,
    ensures
        with_integrity(m, mac).wf(),
        encode_message(with_integrity(m, mac)) == signing_input(m) + integrity_bytes(mac),
{
    let a = AttributeSpec::MessageIntegrity(mac);
    let w = with_integrity(m, mac);
    let id = m.transaction_id;
    lemma_encode_attrs_push(m.attributes, a, id);
    lemma_u16_at_bytes(ATTR_MESSAGE_INTEGRITY);
    lemma_u16_at_bytes(MAC_LEN as u16);
    assert(zeros(padding(MAC_LEN as int)) =~= Seq::<u8>::empty());
    assert(encode_attr(a, id) =~= integrity_bytes(mac));
    assert(w.body() == m.body() + integrity_bytes(mac));
    assert forall|i: int| 0 <= i < w.attributes.len() implies attr_wf(
        #[trigger] w.attributes[i],
    ) by {
        if i < m.attributes.len() {
            assert(w.attributes[i] == m.attributes[i]);
        }
    }
    assert(encode_message(w) =~= signing_input(m) + integrity_bytes(mac));
}

/// Going from attribute to attribute passes over well-formed attributes of
/// other types.
proof fn lemma_tlv_offset_skips(
    pre: Seq<u8>,
    attrs: Seq<AttributeSpec>,
    suf: Seq<u8>,
    id: TransactionId,
    typ: u16,
)
    requires
        forall|i: int|
            0 <= i < attrs.len() ==> attr_wf(#[trigger] attrs[i]) && type_code(attrs[i]) != typ,
    ensures
        tlv_offset(pre + encode_attrs(attrs, id) + suf, pre.len() as int, typ) == tlv_offset(
            pre + encode_attrs(attrs, id) + suf,
            (pre.len() + encode_attrs(attrs, id).len()) as int,
            typ,
        ),
    decreases attrs.len(),
{
    let whole = pre + encode_attrs(attrs, id) + suf;
    let p = pre.len() as int;
    if attrs.len() > 0 {
        let a = attrs[0];
        let rest = attrs.skip(1);
        let e = encode_attr(a, id);
        let tail = encode_attrs(rest, id);
        assert(attr_wf(a) && type_code(a) != typ);
        assert forall|i: int| 0 <= i < rest.len() implies attr_wf(#[trigger] rest[i])
            && type_code(rest[i]) != typ by {
            assert(rest[i] == attrs[i + 1]);
        }
        lemma_encode_attr_shape(a, id);
        assert(encode_attrs(attrs, id) == e + tail);
        assert(whole =~= pre + e + (tail + suf));
        lemma_u16_at_suffix(pre, e + (tail + suf), 0);
        lemma_u16_at_suffix(pre, e + (tail + suf), 2);
        assert(whole =~= pre + (e + (tail + suf)));
        assert(u16_at(e + (tail + suf), 0) == u16_at(e, 0));
        assert(u16_at(e + (tail + suf), 2) == u16_at(e, 2));
        assert(next_tlv(whole, p) == p + e.len());
        lemma_tlv_offset_skips(pre + e, rest, suf, id, typ);
        assert(whole =~= (pre + e) + tail + suf);
    }
}

/// What the server seals, a receiver finds signed: a sealed message without
/// an integrity tag of its own splits into what the tag was computed over
/// and the tag.
pub proof fn lemma_sealed_signed_part(m: MessageSpec, mac: Seq<u8>)
    requires
        m.attributes_wf(),
        m.body().len() + INTEGRITY_ATTR_LEN <= 0xFFFF,
        mac.len() == MAC_LEN,
        !has_type(m.attributes, ATTR_MESSAGE_INTEGRITY),
    ensures
        signed_part_of(encode_message(with_integrity(m, mac))) == Some((signing_input(m), mac)),
{
    let raw = encode_message(with_integrity(m, mac));
    let n = (m.body().len() + INTEGRITY_ATTR_LEN) as u16;
    let head = header_bytes(m.header(), n);
    let body = m.body();
    let off = (HEADER_LEN + body.len()) as int;
    lemma_with_integrity(m, mac);
    lemma_header_bytes_len(m.header(), n);
    lemma_u16_at_bytes(ATTR_MESSAGE_INTEGRITY);
    lemma_u16_at_bytes(MAC_LEN as u16);
    lemma_u16_at_bytes(n);
    lemma_u16_at_bytes(message_type(m.class, m.method));
    assert(raw =~= head + body + integrity_bytes(mac));
    assert forall|i: int| 0 <= i < m.attributes.len() implies attr_wf(#[trigger] m.attributes[i])
        && type_code(m.attributes[i]) != ATTR_MESSAGE_INTEGRITY by {}
    lemma_tlv_offset_skips(head, m.attributes, integrity_bytes(mac), m.transaction_id, ATTR_MESSAGE_INTEGRITY);
    lemma_u16_at_concat(head + body, ATTR_MESSAGE_INTEGRITY, u16_bytes(MAC_LEN as u16) + mac);
    assert(raw =~= head + body + u16_bytes(ATTR_MESSAGE_INTEGRITY) + (u16_bytes(MAC_LEN as u16)
        + mac));
    lemma_u16_at_concat(head + body + u16_bytes(ATTR_MESSAGE_INTEGRITY), MAC_LEN as u16, mac);
    assert(raw =~= head + body + u16_bytes(ATTR_MESSAGE_INTEGRITY) + u16_bytes(MAC_LEN as u16)
        + mac);
    assert(tlv_offset(raw, HEADER_LEN as int, ATTR_MESSAGE_INTEGRITY) == Some(off));
    assert(raw.subrange(off + 4, off + INTEGRITY_ATTR_LEN) =~= mac);
    assert(head.subrange(2, 4) =~= u16_bytes(n));
    assert(raw.subrange(0, 2) + u16_bytes((off + 4) as u16) + raw.subrange(4, off)
        =~= signing_input(m));
}

/// A request that bears a known user's name, a realm, a fresh nonce and an
/// integrity tag is granted if the tag is the one computed under that
/// user's key, and is unauthorized else.
pub proof fn lemma_signed_request_verdict(
    m: MessageSpec,
    mac: Seq<u8>,
    username: Seq<u8>,
    realm: Seq<u8>,
    nonce: Seq<u8>,
    nonces: Map<Seq<u8>, u64>,
    nonce_lifetime: u64,
    creds: Map<Seq<u8>, Credential>,
    now: u64,
)
    requires
        m.attributes_wf(),
        m.body().len() + INTEGRITY_ATTR_LEN <= 0xFFFF,
        mac.len() == MAC_LEN,
        text_of(m.attributes, ATTR_USERNAME) == Some(username),
        text_of(m.attributes, ATTR_REALM) == Some(realm),
        text_of(m.attributes, ATTR_NONCE) == Some(nonce),
        !has_type(m.attributes, ATTR_MESSAGE_INTEGRITY),
        nonce_fresh(nonces, nonce, now, nonce_lifetime),
        creds.contains_key(username),
    ensures
        auth_verdict(
            with_integrity(m, mac).attributes,
            encode_message(with_integrity(m, mac)),
            nonces,
            nonce_lifetime,
            creds,
            now,
        ) == mac_verdict(
            hmac_sha1_of(creds[username].key@, signing_input(m)),
            mac,
            username,
            realm,
            creds[username].key@,
        ),
{
    let after = with_integrity(m, mac).attributes;
    lemma_sealed_signed_part(m, mac);
    assert(type_code(after[m.attributes.len() as int]) == ATTR_MESSAGE_INTEGRITY);
    lemma_first_of_push(m.attributes, AttributeSpec::MessageIntegrity(mac), ATTR_USERNAME);
    lemma_first_of_push(m.attributes, AttributeSpec::MessageIntegrity(mac), ATTR_REALM);
    lemma_first_of_push(m.attributes, AttributeSpec::MessageIntegrity(mac), ATTR_NONCE);
}

/// An attribute of another type at the end of a list does not change which
/// attribute of a type comes first.
proof fn lemma_first_of_push(attrs: Seq<AttributeSpec>, a: AttributeSpec, typ: u16)
    requires
        type_code(a) != typ,
        has_type(attrs, typ),
    ensures
        first_of(attrs.push(a), typ) == first_of(attrs, typ),
{
    let i = choose|i: int| is_first(attrs, typ, i);
    let w = choose|w: int| 0 <= w < attrs.len() && type_code(#[trigger] attrs[w]) == typ;
    lemma_has_first(attrs, typ, w);
    assert(is_first(attrs, typ, i));
    let pushed = attrs.push(a);
    assert(pushed[i] == attrs[i]);
    assert forall|j: int| 0 <= j < i implies type_code(#[trigger] pushed[j]) != typ by {
        assert(pushed[j] == attrs[j]);
    }
    assert(is_first(pushed, typ, i));
    lemma_first_of(pushed, typ, i);
}

/// Where an attribute of a type occurs, one occurs first.
proof fn lemma_has_first(attrs: Seq<AttributeSpec>, typ: u16, w: int)
    requires
        0 <= w < attrs.len(),
        type_code(attrs[w]) == typ,
    ensures
        exists|i: int| is_first(attrs, typ, i),
    decreases w,
{
    if forall|j: int| 0 <= j < w ==> type_code(#[trigger] attrs[j]) != typ {
        assert(is_first(attrs, typ, w));
    } else {
        let j = choose|j: int| 0 <= j < w && type_code(#[trigger] attrs[j]) == typ;
        lemma_has_first(attrs, typ, j);
    }
}

/// Encodes what the integrity tag of the message is computed over.
pub fn signing_bytes(msg: &Message) -> (r: Option<Vec<u8>>)
    ensures
        match r {
            Some(b) => msg@.attributes_wf() && msg@.body().len() + INTEGRITY_ATTR_LEN <= 0xFFFF
                && b@ == signing_input(msg@),
            None => !(msg@.attributes_wf() && msg@.body().len() + INTEGRITY_ATTR_LEN <= 0xFFFF),
        },
{
    let body = match msg.encode_body() {
        None => {
            return None;
        },
        Some(b) => b,
    };
    if body.len() > 0xFFFF - INTEGRITY_ATTR_LEN {
        return None;
    }
    let mut out: Vec<u8> = Vec::new();
    write_header(&mut out, &msg.header(), (body.len() + INTEGRITY_ATTR_LEN) as u16);
    push_bytes(&mut out, body.as_slice());
    Some(out)
}

/// Appends the MESSAGE-INTEGRITY attribute that carries `mac`.
pub fn append_integrity(signed: Vec<u8>, mac: &[u8]) -> (out: Vec<u8>)
    ensures
        out@ == signed@ + integrity_bytes(mac@),
{
    let mut out = signed;
    push_u16(&mut out, ATTR_MESSAGE_INTEGRITY);
    push_u16(&mut out, MAC_LEN as u16);
    push_bytes(&mut out, mac);
    assert(out@ =~= signed@ + integrity_bytes(mac@));
    out
}

/// Encodes the message with its integrity tag under `key`, if it can be
/// sent so.
pub fn seal(msg: &Message, key: &[u8]) -> (r: Option<Vec<u8>>)
    ensures
        match r {
            Some(b) => sealable(msg@, key@) && b@ == encode_message(sealed(msg@, key@)),
            None => !sealable(msg@, key@),
        },
{
    if key.len() > MAX_HMAC_INPUT {
        return None;
    }
    let signed = match signing_bytes(msg) {
        None => {
            return None;
        },
        Some(b) => b,
    };
    proof {
        lemma_header_bytes_len(
            msg@.header(),
            (msg@.body().len() + INTEGRITY_ATTR_LEN) as u16,
        );
    }
    let mac = hmac_sha1(key, signed.as_slice());
    proof {
        lemma_with_integrity(msg@, mac@);
    }
    Some(append_integrity(signed, mac.as_slice()))
}

} // verus!
