//! STUN and TURN attributes: their typed form, their wire form, and the
//! functions between the two.

use vstd::prelude::*;
use crate::addr::{lemma_xor_addr_involutive, xor_addr, IpAddress, TransactionId, TransportAddr};
use crate::wire::{
    copy_range, lemma_u16_at_bytes, lemma_u16_at_concat, lemma_u16_at_prefix, lemma_u32_at_bytes,
    lemma_u32_at_concat, padding, push_bytes, push_u16, push_u32, push_zeros, read_u16, read_u32,
    u16_at, u16_bytes, u32_at, u32_bytes, zeros,
};

verus! {

/// The type codes of the attributes that the server knows.
pub const ATTR_USERNAME: u16 = 0x0006;

pub const ATTR_MESSAGE_INTEGRITY: u16 = 0x0008;

pub const ATTR_ERROR_CODE: u16 = 0x0009;

pub const ATTR_UNKNOWN_ATTRIBUTES: u16 = 0x000A;

pub const ATTR_CHANNEL_NUMBER: u16 = 0x000C;

pub const ATTR_LIFETIME: u16 = 0x000D;

pub const ATTR_XOR_PEER_ADDRESS: u16 = 0x0012;

pub const ATTR_DATA: u16 = 0x0013;

pub const ATTR_REALM: u16 = 0x0014;

pub const ATTR_NONCE: u16 = 0x0015;

pub const ATTR_XOR_RELAYED_ADDRESS: u16 = 0x0016;

pub const ATTR_REQUESTED_TRANSPORT: u16 = 0x0019;

pub const ATTR_XOR_MAPPED_ADDRESS: u16 = 0x0020;

/// Attribute types from here on may be ignored by a receiver that does not
/// know them.
pub const COMPREHENSION_OPTIONAL: u16 = 0x8000;

/// Length of the value of MESSAGE-INTEGRITY.
pub const INTEGRITY_LEN: usize = 20;

/// Why a datagram could not be decoded.
#[derive(Clone, Copy, Debug, PartialEq, Eq, Structural)]
pub enum DecodeError {
    /// Too short for a header, or the first two bits are not zero.
    NotStunFramed,
    /// Wrong magic cookie, a length that is no multiple of four or differs
    /// from the datagram's, or a message type that is not in use.
    MalformedHeader,
    /// An attribute runs past the end, or its value has the wrong shape.
    MalformedAttribute,
    /// An attribute of the given type must be understood and is not known.
    UnknownAttributeRequired(u16),
}

/// A typed attribute.
#[derive(Clone, Debug, PartialEq, Eq)]
pub enum Attribute {
    Username(Vec<u8>),
    MessageIntegrity(Vec<u8>),
    ErrorCode { code: u16, reason: Vec<u8> },
    UnknownAttributes(Vec<u16>),
    ChannelNumber(u16),
    Lifetime(u32),
    XorPeerAddress(TransportAddr),
    Data(Vec<u8>),
    Realm(Vec<u8>),
    Nonce(Vec<u8>),
    XorRelayedAddress(TransportAddr),
    RequestedTransport(u8),
    XorMappedAddress(TransportAddr),
    /// An attribute that a receiver may ignore, kept as it came.
    Other { typ: u16, value: Vec<u8> },
}

/// The mathematical value of an [`Attribute`].
pub ghost enum AttributeSpec {
    Username(Seq<u8>),
    MessageIntegrity(Seq<u8>),
    ErrorCode { code: u16, reason: Seq<u8> },
    UnknownAttributes(Seq<u16>),
    ChannelNumber(u16),
    Lifetime(u32),
    XorPeerAddress(TransportAddr),
    Data(Seq<u8>),
    Realm(Seq<u8>),
    Nonce(Seq<u8>),
    XorRelayedAddress(TransportAddr),
    RequestedTransport(u8),
    XorMappedAddress(TransportAddr),
    Other { typ: u16, value: Seq<u8> },
}

impl View for Attribute {
    type V = AttributeSpec;

    open spec fn view(&self) -> AttributeSpec {
        match *self {
            Attribute::Username(v) => AttributeSpec::Username(v@),
            Attribute::MessageIntegrity(v) => AttributeSpec::MessageIntegrity(v@),
            Attribute::ErrorCode { code, reason } => AttributeSpec::ErrorCode {
                code,
                reason: reason@,
            },
            Attribute::UnknownAttributes(l) => AttributeSpec::UnknownAttributes(l@),
            Attribute::ChannelNumber(n) => AttributeSpec::ChannelNumber(n),
            Attribute::Lifetime(s) => AttributeSpec::Lifetime(s),
            Attribute::XorPeerAddress(a) => AttributeSpec::XorPeerAddress(a),
            Attribute::Data(v) => AttributeSpec::Data(v@),
            Attribute::Realm(v) => AttributeSpec::Realm(v@),
            Attribute::Nonce(v) => AttributeSpec::Nonce(v@),
            Attribute::XorRelayedAddress(a) => AttributeSpec::XorRelayedAddress(a),
            Attribute::RequestedTransport(p) => AttributeSpec::RequestedTransport(p),
            Attribute::XorMappedAddress(a) => AttributeSpec::XorMappedAddress(a),
            Attribute::Other { typ, value } => AttributeSpec::Other { typ, value: value@ },
        }
    }
}

/// An address in the layout of an address attribute, unmasked.
pub open spec fn addr_bytes(a: TransportAddr) -> Seq<u8> {
    match a.ip {
        IpAddress::V4(w) => seq![0u8, 1u8] + u16_bytes(a.port) + u32_bytes(w),
        IpAddress::V6(a0, a1, a2, a3) => seq![0u8, 2u8] + u16_bytes(a.port) + u32_bytes(a0)
            + u32_bytes(a1) + u32_bytes(a2) + u32_bytes(a3),
    }
}

/// The address that `v` holds, if `v` has the layout of an address
/// attribute. The first byte is reserved and not looked at.
pub open spec fn parse_addr(v: Seq<u8>) -> Option<TransportAddr> {
    if v.len() == 8 && v[1] == 1 {
        Some(TransportAddr { port: u16_at(v, 2), ip: IpAddress::V4(u32_at(v, 4)) })
    } else if v.len() == 20 && v[1] == 2 {
        Some(
            TransportAddr {
                port: u16_at(v, 2),
                ip: IpAddress::V6(u32_at(v, 4), u32_at(v, 8), u32_at(v, 12), u32_at(v, 16)),
            },
        )
    } else {
        None
    }
}

/// A list of attribute types, two bytes each.
pub open spec fn u16_list_bytes(l: Seq<u16>) -> Seq<u8> {
    Seq::new(
        2 * l.len(),
        |i: int|
            if i % 2 == 0 {
                (l[i / 2] / 256) as u8
            } else {
                (l[i / 2] % 256) as u8
            },
    )
}

/// The list of 16-bit integers that `v` holds.
pub open spec fn u16_list_at(v: Seq<u8>) -> Seq<u16> {
    Seq::new(v.len() / 2, |i: int| u16_at(v, 2 * i))
}

/// The type code that stands before the attribute on the wire.
pub open spec fn type_code(a: AttributeSpec) -> u16 {
    match a {
        AttributeSpec::Username(_) => ATTR_USERNAME,
        AttributeSpec::MessageIntegrity(_) => ATTR_MESSAGE_INTEGRITY,
        AttributeSpec::ErrorCode { .. } => ATTR_ERROR_CODE,
        AttributeSpec::UnknownAttributes(_) => ATTR_UNKNOWN_ATTRIBUTES,
        AttributeSpec::ChannelNumber(_) => ATTR_CHANNEL_NUMBER,
        AttributeSpec::Lifetime(_) => ATTR_LIFETIME,
        AttributeSpec::XorPeerAddress(_) => ATTR_XOR_PEER_ADDRESS,
        AttributeSpec::Data(_) => ATTR_DATA,
        AttributeSpec::Realm(_) => ATTR_REALM,
        AttributeSpec::Nonce(_) => ATTR_NONCE,
        AttributeSpec::XorRelayedAddress(_) => ATTR_XOR_RELAYED_ADDRESS,
        AttributeSpec::RequestedTransport(_) => ATTR_REQUESTED_TRANSPORT,
        AttributeSpec::XorMappedAddress(_) => ATTR_XOR_MAPPED_ADDRESS,
        AttributeSpec::Other { typ, .. } => typ,
    }
}

/// The value of the attribute on the wire, without padding, in a message
/// with transaction identifier `id`.
pub open spec fn value_bytes(a: AttributeSpec, id: TransactionId) -> Seq<u8> {
    match a {
        AttributeSpec::Username(v) => v,
        AttributeSpec::MessageIntegrity(v) => v,
        AttributeSpec::ErrorCode { code, reason } => seq![
            0u8,
            0u8,
            (code / 100) as u8,
            (code % 100) as u8,
        ] + reason,
        AttributeSpec::UnknownAttributes(l) => u16_list_bytes(l),
        AttributeSpec::ChannelNumber(n) => u16_bytes(n) + seq![0u8, 0u8],
        AttributeSpec::Lifetime(s) => u32_bytes(s),
        AttributeSpec::XorPeerAddress(a) => addr_bytes(xor_addr(a, id)),
        AttributeSpec::Data(v) => v,
        AttributeSpec::Realm(v) => v,
        AttributeSpec::Nonce(v) => v,
        AttributeSpec::XorRelayedAddress(a) => addr_bytes(xor_addr(a, id)),
        AttributeSpec::RequestedTransport(p) => seq![p, 0u8, 0u8, 0u8],
        AttributeSpec::XorMappedAddress(a) => addr_bytes(xor_addr(a, id)),
        AttributeSpec::Other { value, .. } => value,
    }
}

/// Whether the attribute can stand in a message: its value fits the 16-bit
/// length field and has the shape that its type asks for.
pub open spec fn attr_wf(a: AttributeSpec) -> bool {
    match a {
        AttributeSpec::Username(v) => v.len() <= 0xFFFF,
        AttributeSpec::MessageIntegrity(v) => v.len() == INTEGRITY_LEN,
        AttributeSpec::ErrorCode { code, reason } => 300 <= code <= 699 && reason.len() + 4
            <= 0xFFFF,
        AttributeSpec::UnknownAttributes(l) => 2 * l.len() <= 0xFFFF,
        AttributeSpec::Data(v) => v.len() <= 0xFFFF,
        AttributeSpec::Realm(v) => v.len() <= 0xFFFF,
        AttributeSpec::Nonce(v) => v.len() <= 0xFFFF,
        AttributeSpec::Other { typ, value } => typ >= COMPREHENSION_OPTIONAL && value.len()
            <= 0xFFFF,
        _ => true,
    }
}

/// The attribute on the wire: type, length, value, and zero bytes up to the
/// next 32-bit boundary.
pub open spec fn encode_attr(a: AttributeSpec, id: TransactionId) -> Seq<u8> {
    let v = value_bytes(a, id);
    u16_bytes(type_code(a)) + u16_bytes(v.len() as u16) + v + zeros(padding(v.len() as int))
}

/// The typed attribute for a type code and a value taken off the wire.
#[verifier::opaque]
pub open spec fn parse_value(typ: u16, v: Seq<u8>, id: TransactionId) -> Result<
    AttributeSpec,
    DecodeError,
> {
    if typ == ATTR_USERNAME {
        Ok(AttributeSpec::Username(v))
    } else if typ == ATTR_MESSAGE_INTEGRITY {
        if v.len() == INTEGRITY_LEN {
            Ok(AttributeSpec::MessageIntegrity(v))
        } else {
            Err(DecodeError::MalformedAttribute)
        }
    } else if typ == ATTR_ERROR_CODE {
        if v.len() >= 4 && 3 <= v[2] % 8 <= 6 && v[3] < 100 {
            Ok(
                AttributeSpec::ErrorCode {
                    code: ((v[2] % 8) * 100 + v[3]) as u16,
                    reason: v.skip(4),
                },
            )
        } else {
            Err(DecodeError::MalformedAttribute)
        }
    } else if typ == ATTR_UNKNOWN_ATTRIBUTES {
        if v.len() % 2 == 0 {
            Ok(AttributeSpec::UnknownAttributes(u16_list_at(v)))
        } else {
            Err(DecodeError::MalformedAttribute)
        }
    } else if typ == ATTR_CHANNEL_NUMBER {
        if v.len() == 4 {
            Ok(AttributeSpec::ChannelNumber(u16_at(v, 0)))
        } else {
            Err(DecodeError::MalformedAttribute)
        }
    } else if typ == ATTR_LIFETIME {
        if v.len() == 4 {
            Ok(AttributeSpec::Lifetime(u32_at(v, 0)))
        } else {
            Err(DecodeError::MalformedAttribute)
        }
    } else if typ == ATTR_XOR_PEER_ADDRESS {
        match parse_addr(v) {
            Some(a) => Ok(AttributeSpec::XorPeerAddress(xor_addr(a, id))),
            None => Err(DecodeError::MalformedAttribute),
        }
    } else if typ == ATTR_DATA {
        Ok(AttributeSpec::Data(v))
    } else if typ == ATTR_REALM {
        Ok(AttributeSpec::Realm(v))
    } else if typ == ATTR_NONCE {
        Ok(AttributeSpec::Nonce(v))
    } else if typ == ATTR_XOR_RELAYED_ADDRESS {
        match parse_addr(v) {
            Some(a) => Ok(AttributeSpec::XorRelayedAddress(xor_addr(a, id))),
            None => Err(DecodeError::MalformedAttribute),
        }
    } else if typ == ATTR_REQUESTED_TRANSPORT {
        if v.len() == 4 {
            Ok(AttributeSpec::RequestedTransport(v[0]))
        } else {
            Err(DecodeError::MalformedAttribute)
        }
    } else if typ == ATTR_XOR_MAPPED_ADDRESS {
        match parse_addr(v) {
            Some(a) => Ok(AttributeSpec::XorMappedAddress(xor_addr(a, id))),
            None => Err(DecodeError::MalformedAttribute),
        }
    } else if typ >= COMPREHENSION_OPTIONAL {
        Ok(AttributeSpec::Other { typ, value: v })
    } else {
        Err(DecodeError::UnknownAttributeRequired(typ))
    }
}

/// The mathematical value of the outcome of decoding one attribute.
pub open spec fn attr_result_view(r: Result<Attribute, DecodeError>) -> Result<
    AttributeSpec,
    DecodeError,
> {
    match r {
        Ok(a) => Ok(a@),
        Err(e) => Err(e),
    }
}

/// An address written in the layout of an address attribute is read back.
pub proof fn lemma_parse_addr_bytes(a: TransportAddr)
    ensures
        parse_addr(addr_bytes(a)) == Some(a),
{
    let v = addr_bytes(a);
    let none = Seq::<u8>::empty();
    lemma_u16_at_bytes(a.port);
    match a.ip {
        IpAddress::V4(w) => {
            lemma_u32_at_bytes(w);
            let h = seq![0u8, 1u8];
            let p = h + u16_bytes(a.port);
            lemma_u16_at_concat(h, a.port, u32_bytes(w));
            lemma_u32_at_concat(p, w, none);
            assert(v =~= p + u32_bytes(w) + none);
        },
        IpAddress::V6(a0, a1, a2, a3) => {
            lemma_u32_at_bytes(a0);
            lemma_u32_at_bytes(a1);
            lemma_u32_at_bytes(a2);
            lemma_u32_at_bytes(a3);
            let h = seq![0u8, 2u8];
            let p = h + u16_bytes(a.port);
            let p0 = p + u32_bytes(a0);
            let p1 = p0 + u32_bytes(a1);
            let p2 = p1 + u32_bytes(a2);
            let t3 = u32_bytes(a3);
            let t2 = u32_bytes(a2) + t3;
            let t1 = u32_bytes(a1) + t2;
            let t0 = u32_bytes(a0) + t1;
            lemma_u16_at_concat(h, a.port, t0);
            lemma_u32_at_concat(p, a0, t1);
            lemma_u32_at_concat(p0, a1, t2);
            lemma_u32_at_concat(p1, a2, t3);
            lemma_u32_at_concat(p2, a3, none);
            assert(v =~= h + u16_bytes(a.port) + t0);
            assert(v =~= p + u32_bytes(a0) + t1);
            assert(v =~= p0 + u32_bytes(a1) + t2);
            assert(v =~= p1 + u32_bytes(a2) + t3);
            assert(v =~= p2 + u32_bytes(a3) + none);
            assert(v.len() == 20);
            assert(v[1] == 2);
        },
    }
}

/// A list of 16-bit integers written two bytes each is read back.
pub proof fn lemma_u16_list_roundtrip(l: Seq<u16>)
    ensures
        u16_list_bytes(l).len() == 2 * l.len(),
        u16_list_at(u16_list_bytes(l)) == l,
{
    let v = u16_list_bytes(l);
    let back = u16_list_at(v);
    assert(back.len() == l.len());
    assert forall|i: int| 0 <= i < l.len() implies back[i] == l[i] by {
        assert((2 * i) % 2 == 0);
        assert((2 * i + 1) % 2 == 1);
        assert((2 * i) / 2 == i);
        assert((2 * i + 1) / 2 == i);
    }
    assert(back =~= l);
}

/// Decoding the value of a well-formed attribute under its type code gives
/// the attribute back.
pub proof fn lemma_parse_value_bytes(a: AttributeSpec, id: TransactionId)
    requires
        attr_wf(a),
    ensures
        parse_value(type_code(a), value_bytes(a, id), id) == Ok::<AttributeSpec, DecodeError>(a),
        value_bytes(a, id).len() <= 0xFFFF,
{
    let v = value_bytes(a, id);
    reveal(parse_value);
    match a {
        AttributeSpec::ErrorCode { code, reason } => {
            assert(v[2] == code / 100);
            assert(v[3] == code % 100);
            assert(v.skip(4) =~= reason);
        },
        AttributeSpec::UnknownAttributes(l) => {
            lemma_u16_list_roundtrip(l);
        },
        AttributeSpec::ChannelNumber(n) => {
            lemma_u16_at_bytes(n);
            lemma_u16_at_prefix(u16_bytes(n), seq![0u8, 0u8], 0);
        },
        AttributeSpec::Lifetime(s) => {
            lemma_u32_at_bytes(s);
        },
        AttributeSpec::XorPeerAddress(p) => {
            lemma_parse_addr_bytes(xor_addr(p, id));
            lemma_xor_addr_involutive(p, id);
        },
        AttributeSpec::XorRelayedAddress(p) => {
            lemma_parse_addr_bytes(xor_addr(p, id));
            lemma_xor_addr_involutive(p, id);
        },
        AttributeSpec::XorMappedAddress(p) => {
            lemma_parse_addr_bytes(xor_addr(p, id));
            lemma_xor_addr_involutive(p, id);
        },
        AttributeSpec::RequestedTransport(p) => {
            assert(v[0] == p);
        },
        _ => {},
    }
}

fn write_addr(out: &mut Vec<u8>, a: &TransportAddr)
    ensures
        final(out)@ == old(out)@ + addr_bytes(*a),
{
    out.push(0u8);
    match a.ip {
        IpAddress::V4(w) => {
            out.push(1u8);
            push_u16(out, a.port);
            push_u32(out, w);
            assert(out@ =~= old(out)@ + addr_bytes(*a));
        },
        IpAddress::V6(a0, a1, a2, a3) => {
            out.push(2u8);
            push_u16(out, a.port);
            push_u32(out, a0);
            push_u32(out, a1);
            push_u32(out, a2);
            push_u32(out, a3);
            assert(out@ =~= old(out)@ + addr_bytes(*a));
        },
    }
}

fn read_addr(v: &[u8]) -> (r: Option<TransportAddr>)
    ensures
        r == parse_addr(v@),
{
    if v.len() == 8 && v[1] == 1 {
        Some(TransportAddr { port: read_u16(v, 2), ip: IpAddress::V4(read_u32(v, 4)) })
    } else if v.len() == 20 && v[1] == 2 {
        Some(
            TransportAddr {
                port: read_u16(v, 2),
                ip: IpAddress::V6(
                    read_u32(v, 4),
                    read_u32(v, 8),
                    read_u32(v, 12),
                    read_u32(v, 16),
                ),
            },
        )
    } else {
        None
    }
}

fn write_u16_list(out: &mut Vec<u8>, l: &Vec<u16>)
    ensures
        final(out)@ == old(out)@ + u16_list_bytes(l@),
{
    let mut i: usize = 0;
    assert(out@ =~= old(out)@ + u16_list_bytes(l@.take(0)));
    while i < l.len()
        invariant
            i <= l@.len(),
            out@ == old(out)@ + u16_list_bytes(l@.take(i as int)),
        decreases l@.len() - i,
    {
        push_u16(out, l[i]);
        proof {
            reveal(u16_bytes);
            let before = u16_list_bytes(l@.take(i as int));
            let after = u16_list_bytes(l@.take(i + 1));
            assert(after =~= before + u16_bytes(l@[i as int])) by {
                assert forall|k: int| 0 <= k < after.len() implies after[k] == (before
                    + u16_bytes(l@[i as int]))[k] by {
                    if k < 2 * i {
                        assert(k / 2 < i);
                    } else {
                        assert(k / 2 == i);
                    }
                }
            }
        }
        i += 1;
    }
    assert(l@.take(i as int) =~= l@);
}

fn read_u16_list(v: &[u8]) -> (l: Vec<u16>)
    requires
        v@.len() % 2 == 0,
    ensures
        l@ == u16_list_at(v@),
{
    let n: usize = v.len() / 2;
    let mut l: Vec<u16> = Vec::new();
    let mut i: usize = 0;
    while i < n
        invariant
            i <= n,
            n == v@.len() / 2,
            v@.len() % 2 == 0,
            v@.len() <= usize::MAX,
            l@ == u16_list_at(v@).take(i as int),
        decreases n - i,
    {
        assert(2 * n <= v@.len());
        l.push(read_u16(v, 2 * i));
        i += 1;
        assert(l@ =~= u16_list_at(v@).take(i as int));
    }
    assert(u16_list_at(v@).take(i as int) =~= u16_list_at(v@));
    l
}

impl Attribute {
    /// Whether the attribute can stand in a message.
    pub fn is_valid(&self) -> (ok: bool)
        ensures
            ok == attr_wf(self@),
    {
        match self {
            Attribute::Username(v) => v.len() <= 0xFFFF,
            Attribute::MessageIntegrity(v) => v.len() == INTEGRITY_LEN,
            Attribute::ErrorCode { code, reason } => 300 <= *code && *code <= 699
                && reason.len() <= 0xFFFF - 4,
            Attribute::UnknownAttributes(l) => l.len() <= 0x7FFF,
            Attribute::Data(v) => v.len() <= 0xFFFF,
            Attribute::Realm(v) => v.len() <= 0xFFFF,
            Attribute::Nonce(v) => v.len() <= 0xFFFF,
            Attribute::Other { typ, value } => *typ >= COMPREHENSION_OPTIONAL && value.len()
                <= 0xFFFF,
            _ => true,
        }
    }

    /// The attribute's type code.
    pub fn code(&self) -> (typ: u16)
        ensures
            typ == type_code(self@),
    {
        match self {
            Attribute::Username(_) => ATTR_USERNAME,
            Attribute::MessageIntegrity(_) => ATTR_MESSAGE_INTEGRITY,
            Attribute::ErrorCode { .. } => ATTR_ERROR_CODE,
            Attribute::UnknownAttributes(_) => ATTR_UNKNOWN_ATTRIBUTES,
            Attribute::ChannelNumber(_) => ATTR_CHANNEL_NUMBER,
            Attribute::Lifetime(_) => ATTR_LIFETIME,
            Attribute::XorPeerAddress(_) => ATTR_XOR_PEER_ADDRESS,
            Attribute::Data(_) => ATTR_DATA,
            Attribute::Realm(_) => ATTR_REALM,
            Attribute::Nonce(_) => ATTR_NONCE,
            Attribute::XorRelayedAddress(_) => ATTR_XOR_RELAYED_ADDRESS,
            Attribute::RequestedTransport(_) => ATTR_REQUESTED_TRANSPORT,
            Attribute::XorMappedAddress(_) => ATTR_XOR_MAPPED_ADDRESS,
            Attribute::Other { typ, .. } => *typ,
        }
    }

    /// The attribute's value as it goes on the wire, without padding.
    pub fn value(&self, id: &TransactionId) -> (out: Vec<u8>)
        requires
            attr_wf(self@),
        ensures
            out@ == value_bytes(self@, *id),
    {
        let mut out: Vec<u8> = Vec::new();
        match self {
            Attribute::Username(v) => push_bytes(&mut out, v.as_slice()),
            Attribute::MessageIntegrity(v) => push_bytes(&mut out, v.as_slice()),
            Attribute::ErrorCode { code, reason } => {
                out.push(0u8);
                out.push(0u8);
                out.push((*code / 100) as u8);
                out.push((*code % 100) as u8);
                push_bytes(&mut out, reason.as_slice());
            },
            Attribute::UnknownAttributes(l) => write_u16_list(&mut out, l),
            Attribute::ChannelNumber(n) => {
                push_u16(&mut out, *n);
                out.push(0u8);
                out.push(0u8);
            },
            Attribute::Lifetime(s) => push_u32(&mut out, *s),
            Attribute::XorPeerAddress(a) => write_addr(&mut out, &a.xor(id)),
            Attribute::Data(v) => push_bytes(&mut out, v.as_slice()),
            Attribute::Realm(v) => push_bytes(&mut out, v.as_slice()),
            Attribute::Nonce(v) => push_bytes(&mut out, v.as_slice()),
            Attribute::XorRelayedAddress(a) => write_addr(&mut out, &a.xor(id)),
            Attribute::RequestedTransport(p) => {
                out.push(*p);
                out.push(0u8);
                out.push(0u8);
                out.push(0u8);
            },
            Attribute::XorMappedAddress(a) => write_addr(&mut out, &a.xor(id)),
            Attribute::Other { value, .. } => push_bytes(&mut out, value.as_slice()),
        }
        assert(out@ =~= value_bytes(self@, *id));
        out
    }

    /// Appends the attribute in its wire form.
    pub fn write(&self, out: &mut Vec<u8>, id: &TransactionId)
        requires
            attr_wf(self@),
        ensures
            final(out)@ == old(out)@ + encode_attr(self@, *id),
    {
        let v = self.value(id);
        proof {
            lemma_parse_value_bytes(self@, *id);
        }
        let len: usize = v.len();
        push_u16(out, self.code());
        push_u16(out, len as u16);
        push_bytes(out, v.as_slice());
        push_zeros(out, (4 - len % 4) % 4);
        assert(out@ =~= old(out)@ + encode_attr(self@, *id));
    }

    /// The typed attribute for a type code and a value taken off the wire.
    pub fn read(typ: u16, v: &[u8], id: &TransactionId) -> (r: Result<Attribute, DecodeError>)
        ensures
            attr_result_view(r) == parse_value(typ, v@, *id),
    {
        let whole = copy_range(v, 0, v.len());
        assert(whole@ =~= v@);
        proof {
            reveal(parse_value);
        }
        if typ == ATTR_USERNAME {
            Ok(Attribute::Username(whole))
        } else if typ == ATTR_MESSAGE_INTEGRITY {
            if v.len() == INTEGRITY_LEN {
                Ok(Attribute::MessageIntegrity(whole))
            } else {
                Err(DecodeError::MalformedAttribute)
            }
        } else if typ == ATTR_ERROR_CODE {
            if v.len() >= 4 && 3 <= v[2] % 8 && v[2] % 8 <= 6 && v[3] < 100 {
                let class: u16 = (v[2] % 8) as u16;
                let number: u16 = v[3] as u16;
                Ok(
                    Attribute::ErrorCode {
                        code: class * 100 + number,
                        reason: copy_range(v, 4, v.len()),
                    },
                )
            } else {
                Err(DecodeError::MalformedAttribute)
            }
        } else if typ == ATTR_UNKNOWN_ATTRIBUTES {
            if v.len() % 2 == 0 {
                Ok(Attribute::UnknownAttributes(read_u16_list(v)))
            } else {
                Err(DecodeError::MalformedAttribute)
            }
        } else if typ == ATTR_CHANNEL_NUMBER {
            if v.len() == 4 {
                Ok(Attribute::ChannelNumber(read_u16(v, 0)))
            } else {
                Err(DecodeError::MalformedAttribute)
            }
        } else if typ == ATTR_LIFETIME {
            if v.len() == 4 {
                Ok(Attribute::Lifetime(read_u32(v, 0)))
            } else {
                Err(DecodeError::MalformedAttribute)
            }
        } else if typ == ATTR_XOR_PEER_ADDRESS {
            match read_addr(v) {
                Some(a) => Ok(Attribute::XorPeerAddress(a.xor(id))),
                None => Err(DecodeError::MalformedAttribute),
            }
        } else if typ == ATTR_DATA {
            Ok(Attribute::Data(whole))
        } else if typ == ATTR_REALM {
            Ok(Attribute::Realm(whole))
        } else if typ == ATTR_NONCE {
            Ok(Attribute::Nonce(whole))
        } else if typ == ATTR_XOR_RELAYED_ADDRESS {
            match read_addr(v) {
                Some(a) => Ok(Attribute::XorRelayedAddress(a.xor(id))),
                None => Err(DecodeError::MalformedAttribute),
            }
        } else if typ == ATTR_REQUESTED_TRANSPORT {
            if v.len() == 4 {
                Ok(Attribute::RequestedTransport(v[0]))
            } else {
                Err(DecodeError::MalformedAttribute)
            }
        } else if typ == ATTR_XOR_MAPPED_ADDRESS {
            match read_addr(v) {
                Some(a) => Ok(Attribute::XorMappedAddress(a.xor(id))),
                None => Err(DecodeError::MalformedAttribute),
            }
        } else if typ >= COMPREHENSION_OPTIONAL {
            Ok(Attribute::Other { typ, value: whole })
        } else {
            Err(DecodeError::UnknownAttributeRequired(typ))
        }
    }
}

} // verus!
