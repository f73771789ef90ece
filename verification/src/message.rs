//! STUN messages: the header, the attribute list, and the codec between a
//! typed message and a datagram.

use vstd::prelude::*;
use vstd::slice::slice_subrange;
use crate::addr::{TransactionId, TransportAddr, MAGIC_COOKIE};
use crate::attr::{
    attr_wf, encode_attr, lemma_parse_value_bytes, parse_value, type_code, value_bytes, Attribute,
    AttributeSpec, DecodeError, ATTR_CHANNEL_NUMBER, ATTR_LIFETIME, ATTR_MESSAGE_INTEGRITY,
    ATTR_REQUESTED_TRANSPORT, ATTR_XOR_PEER_ADDRESS,
};
use crate::wire::{
    lemma_u16_at_bytes, lemma_u16_at_concat, lemma_u32_at_bytes, lemma_u32_at_concat, padded,
    padding, push_bytes, push_u16, push_u32, read_u16, read_u32, u16_at, u16_bytes, u32_at, u32_bytes, zeros,
};

verus! {

/// Length of the fixed header of every message.
pub const HEADER_LEN: usize = 20;

/// The class of a message.
#[derive(Clone, Copy, Debug, PartialEq, Eq, Structural)]
pub enum Class {
    Request,
    Indication,
    SuccessResponse,
    ErrorResponse,
}

/// The method of a message.
#[derive(Clone, Copy, Debug, PartialEq, Eq, Structural)]
pub enum Method {
    Binding,
    Allocate,
    Refresh,
    Send,
    Data,
    CreatePermission,
    ChannelBind,
}

/// What the fixed header of a message says, but for the length.
#[derive(Clone, Copy, Debug, PartialEq, Eq, Structural)]
pub struct Header {
    pub class: Class,
    pub method: Method,
    pub transaction_id: TransactionId,
}

/// A typed message.
#[derive(Clone, Debug, PartialEq, Eq)]
pub struct Message {
    pub class: Class,
    pub method: Method,
    pub transaction_id: TransactionId,
    pub attributes: Vec<Attribute>,
}

/// The mathematical value of a [`Message`].
pub ghost struct MessageSpec {
    pub class: Class,
    pub method: Method,
    pub transaction_id: TransactionId,
    pub attributes: Seq<AttributeSpec>,
}

/// The values of a list of attributes.
pub open spec fn attrs_view(s: Seq<Attribute>) -> Seq<AttributeSpec> {
    Seq::new(s.len(), |i: int| s[i]@)
}

impl View for Message {
    type V = MessageSpec;

    open spec fn view(&self) -> MessageSpec {
        MessageSpec {
            class: self.class,
            method: self.method,
            transaction_id: self.transaction_id,
            attributes: attrs_view(self.attributes@),
        }
    }
}

/// The bits that the class contributes to the message type.
pub open spec fn class_bits(c: Class) -> u16 {
    match c {
        Class::Request => 0x0000,
        Class::Indication => 0x0010,
        Class::SuccessResponse => 0x0100,
        Class::ErrorResponse => 0x0110,
    }
}

/// The bits that the method contributes to the message type.
pub open spec fn method_bits(m: Method) -> u16 {
    match m {
        Method::Binding => 0x001,
        Method::Allocate => 0x003,
        Method::Refresh => 0x004,
        Method::Send => 0x006,
        Method::Data => 0x007,
        Method::CreatePermission => 0x008,
        Method::ChannelBind => 0x009,
    }
}

/// The 16-bit message type in the header.
pub open spec fn message_type(c: Class, m: Method) -> u16 {
    (class_bits(c) + method_bits(m)) as u16
}

/// The class and method of a message type, if both are in use.
pub open spec fn parse_type(t: u16) -> Option<(Class, Method)> {
    let low = t % 16;
    let high = t - low;
    let class = if high == 0x0000 {
        Some(Class::Request)
    } else if high == 0x0010 {
        Some(Class::Indication)
    } else if high == 0x0100 {
        Some(Class::SuccessResponse)
    } else if high == 0x0110 {
        Some(Class::ErrorResponse)
    } else {
        None
    };
    let method = if low == 0x1 {
        Some(Method::Binding)
    } else if low == 0x3 {
        Some(Method::Allocate)
    } else if low == 0x4 {
        Some(Method::Refresh)
    } else if low == 0x6 {
        Some(Method::Send)
    } else if low == 0x7 {
        Some(Method::Data)
    } else if low == 0x8 {
        Some(Method::CreatePermission)
    } else if low == 0x9 {
        Some(Method::ChannelBind)
    } else {
        None
    };
    match (class, method) {
        (Some(c), Some(m)) => Some((c, m)),
        _ => None,
    }
}

/// The twenty bytes of the header of a message whose attributes take
/// `body_len` bytes.
pub open spec fn header_bytes(h: Header, body_len: u16) -> Seq<u8> {
    u16_bytes(message_type(h.class, h.method)) + u16_bytes(body_len) + u32_bytes(MAGIC_COOKIE)
        + u32_bytes(h.transaction_id.w0) + u32_bytes(h.transaction_id.w1) + u32_bytes(
        h.transaction_id.w2,
    )
}

/// What the header of datagram `b` says, or why `b` has no valid header.
pub open spec fn parse_header(b: Seq<u8>) -> Result<Header, DecodeError> {
    if b.len() < HEADER_LEN || b[0] >= 64 {
        Err(DecodeError::NotStunFramed)
    } else if u32_at(b, 4) != MAGIC_COOKIE {
        Err(DecodeError::MalformedHeader)
    } else if u16_at(b, 2) % 4 != 0 || HEADER_LEN + u16_at(b, 2) != b.len() {
        Err(DecodeError::MalformedHeader)
    } else {
        match parse_type(u16_at(b, 0)) {
            None => Err(DecodeError::MalformedHeader),
            Some((class, method)) => Ok(
                Header {
                    class,
                    method,
                    transaction_id: TransactionId {
                        w0: u32_at(b, 8),
                        w1: u32_at(b, 12),
                        w2: u32_at(b, 16),
                    },
                },
            ),
        }
    }
}

/// The attributes on the wire, one after the other.
pub open spec fn encode_attrs(attrs: Seq<AttributeSpec>, id: TransactionId) -> Seq<u8>
    decreases attrs.len(),
{
    if attrs.len() == 0 {
        Seq::empty()
    } else {
        encode_attr(attrs[0], id) + encode_attrs(attrs.skip(1), id)
    }
}

/// `pre` followed by what `rest` holds, or the error that `rest` is.
pub open spec fn prepend(
    pre: Seq<AttributeSpec>,
    rest: Result<Seq<AttributeSpec>, DecodeError>,
) -> Result<Seq<AttributeSpec>, DecodeError> {
    match rest {
        Ok(s) => Ok(pre + s),
        Err(e) => Err(e),
    }
}

/// The attributes in `b`, the part of a datagram after the header, or the
/// first error met on the way through it. Padding bytes are not looked at.
pub open spec fn parse_attrs(b: Seq<u8>, id: TransactionId) -> Result<
    Seq<AttributeSpec>,
    DecodeError,
>
    decreases b.len(),
{
    if b.len() == 0 {
        Ok(Seq::empty())
    } else if b.len() < 4 {
        Err(DecodeError::MalformedAttribute)
    } else {
        let len = u16_at(b, 2) as int;
        if 4 + padded(len) > b.len() {
            Err(DecodeError::MalformedAttribute)
        } else {
            match parse_value(u16_at(b, 0), b.subrange(4, 4 + len), id) {
                Err(e) => Err(e),
                Ok(a) => prepend(seq![a], parse_attrs(b.skip(4 + padded(len)), id)),
            }
        }
    }
}

/// Whether some attribute has type code `typ`.
pub open spec fn has_type(attrs: Seq<AttributeSpec>, typ: u16) -> bool {
    exists|i: int| 0 <= i < attrs.len() && type_code(#[trigger] attrs[i]) == typ
}

/// Whether the attribute at `i` is the first with type code `typ`.
pub open spec fn is_first(attrs: Seq<AttributeSpec>, typ: u16, i: int) -> bool {
    &&& 0 <= i < attrs.len()
    &&& type_code(attrs[i]) == typ
    &&& forall|j: int| 0 <= j < i ==> type_code(#[trigger] attrs[j]) != typ
}

/// The first attribute with type code `typ`.
pub open spec fn first_of(attrs: Seq<AttributeSpec>, typ: u16) -> Option<AttributeSpec> {
    if has_type(attrs, typ) {
        Some(attrs[choose|i: int| is_first(attrs, typ, i)])
    } else {
        None
    }
}

/// The value of the first attribute with type code `typ`, where that is a
/// user name, a realm, a nonce or data.
pub open spec fn text_of(attrs: Seq<AttributeSpec>, typ: u16) -> Option<Seq<u8>> {
    match first_of(attrs, typ) {
        Some(AttributeSpec::Username(v)) => Some(v),
        Some(AttributeSpec::Realm(v)) => Some(v),
        Some(AttributeSpec::Nonce(v)) => Some(v),
        Some(AttributeSpec::Data(v)) => Some(v),
        _ => None,
    }
}

/// The value of the first LIFETIME attribute.
pub open spec fn lifetime_of(attrs: Seq<AttributeSpec>) -> Option<u32> {
    match first_of(attrs, ATTR_LIFETIME) {
        Some(AttributeSpec::Lifetime(s)) => Some(s),
        _ => None,
    }
}

/// The value of the first REQUESTED-TRANSPORT attribute.
pub open spec fn transport_of(attrs: Seq<AttributeSpec>) -> Option<u8> {
    match first_of(attrs, ATTR_REQUESTED_TRANSPORT) {
        Some(AttributeSpec::RequestedTransport(p)) => Some(p),
        _ => None,
    }
}

/// The value of the first CHANNEL-NUMBER attribute.
pub open spec fn channel_of(attrs: Seq<AttributeSpec>) -> Option<u16> {
    match first_of(attrs, ATTR_CHANNEL_NUMBER) {
        Some(AttributeSpec::ChannelNumber(n)) => Some(n),
        _ => None,
    }
}

/// The value of the first XOR-PEER-ADDRESS attribute.
pub open spec fn peer_of(attrs: Seq<AttributeSpec>) -> Option<TransportAddr> {
    match first_of(attrs, ATTR_XOR_PEER_ADDRESS) {
        Some(AttributeSpec::XorPeerAddress(a)) => Some(a),
        _ => None,
    }
}

/// The values of all XOR-PEER-ADDRESS attributes, in order.
pub open spec fn peers_of(attrs: Seq<AttributeSpec>) -> Seq<TransportAddr>
    decreases attrs.len(),
{
    if attrs.len() == 0 {
        Seq::empty()
    } else {
        let rest = peers_of(attrs.drop_last());
        match attrs.last() {
            AttributeSpec::XorPeerAddress(a) => rest.push(a),
            _ => rest,
        }
    }
}

/// The attributes up to and with the first MESSAGE-INTEGRITY. What comes
/// after it is not covered by the integrity tag.
pub open spec fn up_to_integrity(attrs: Seq<AttributeSpec>) -> Seq<AttributeSpec> {
    if has_type(attrs, ATTR_MESSAGE_INTEGRITY) {
        attrs.take((choose|i: int| is_first(attrs, ATTR_MESSAGE_INTEGRITY, i)) + 1)
    } else {
        attrs
    }
}

/// The place at which a type is found first is the one place that is first.
pub proof fn lemma_first_index(attrs: Seq<AttributeSpec>, typ: u16, i: int)
    requires
        is_first(attrs, typ, i),
    ensures
        (choose|k: int| is_first(attrs, typ, k)) == i,
{
    let k = choose|k: int| is_first(attrs, typ, k);
    assert(is_first(attrs, typ, k));
    if k < i {
        assert(type_code(attrs[k]) != typ);
    } else if i < k {
        assert(type_code(attrs[i]) != typ);
    }
}

/// The first attribute of a type is the one found at the first place that
/// holds the type.
pub proof fn lemma_first_of(attrs: Seq<AttributeSpec>, typ: u16, i: int)
    requires
        is_first(attrs, typ, i),
    ensures
        first_of(attrs, typ) == Some(attrs[i]),
{
    let k = choose|k: int| is_first(attrs, typ, k);
    assert(is_first(attrs, typ, k));
    if k < i {
        assert(type_code(attrs[k]) != typ);
    } else if i < k {
        assert(type_code(attrs[i]) != typ);
    }
}

impl MessageSpec {
    /// What the header of the message says, but for the length.
    pub open spec fn header(self) -> Header {
        Header { class: self.class, method: self.method, transaction_id: self.transaction_id }
    }

    /// The attributes on the wire.
    pub open spec fn body(self) -> Seq<u8> {
        encode_attrs(self.attributes, self.transaction_id)
    }

    /// The message without the attributes that come after its integrity
    /// tag, which a receiver is not to look at.
    pub open spec fn protected(self) -> MessageSpec {
        MessageSpec {
            class: self.class,
            method: self.method,
            transaction_id: self.transaction_id,
            attributes: up_to_integrity(self.attributes),
        }
    }

    /// Whether every attribute is well formed.
    pub open spec fn attributes_wf(self) -> bool {
        forall|i: int| 0 <= i < self.attributes.len() ==> attr_wf(#[trigger] self.attributes[i])
    }

    /// Whether the message can be sent: every attribute is well formed and
    /// together they fit the header's 16-bit length field.
    pub open spec fn wf(self) -> bool {
        self.attributes_wf() && self.body().len() <= 0xFFFF
    }
}

/// The message as a datagram.
pub open spec fn encode_message(m: MessageSpec) -> Seq<u8> {
    header_bytes(m.header(), m.body().len() as u16) + m.body()
}

/// The message that datagram `b` holds, or why it holds none.
pub open spec fn parse_message(b: Seq<u8>) -> Result<MessageSpec, DecodeError> {
    match parse_header(b) {
        Err(e) => Err(e),
        Ok(h) => match parse_attrs(b.skip(HEADER_LEN as int), h.transaction_id) {
            Err(e) => Err(e),
            Ok(attributes) => Ok(
                MessageSpec {
                    class: h.class,
                    method: h.method,
                    transaction_id: h.transaction_id,
                    attributes,
                },
            ),
        },
    }
}

/// The mathematical value of the outcome of decoding a datagram.
pub open spec fn decode_view(r: Result<Message, DecodeError>) -> Result<MessageSpec, DecodeError> {
    match r {
        Ok(m) => Ok(m@),
        Err(e) => Err(e),
    }
}

/// The type of a message is read back as its class and its method, and
/// its first two bits are zero.
pub proof fn lemma_parse_type(c: Class, m: Method)
    ensures
        parse_type(message_type(c, m)) == Some((c, m)),
        message_type(c, m) < 0x4000,
{
}

/// A header takes twenty bytes.
pub proof fn lemma_header_bytes_len(h: Header, body_len: u16)
    ensures
        header_bytes(h, body_len).len() == HEADER_LEN,
{
    lemma_u16_at_bytes(message_type(h.class, h.method));
    lemma_u16_at_bytes(body_len);
    lemma_u32_at_bytes(MAGIC_COOKIE);
    lemma_u32_at_bytes(h.transaction_id.w0);
    lemma_u32_at_bytes(h.transaction_id.w1);
    lemma_u32_at_bytes(h.transaction_id.w2);
}

/// A header in front of a body of the announced length is read back.
pub proof fn lemma_parse_header_bytes(h: Header, body: Seq<u8>)
    requires
        body.len() <= 0xFFFF,
        body.len() % 4 == 0,
    ensures
        parse_header(header_bytes(h, body.len() as u16) + body) == Ok::<Header, DecodeError>(h),
{
    let t = message_type(h.class, h.method);
    let n = body.len() as u16;
    let id = h.transaction_id;
    let b = header_bytes(h, n) + body;
    lemma_header_bytes_len(h, n);
    lemma_parse_type(h.class, h.method);
    lemma_u16_at_bytes(t);
    lemma_u16_at_bytes(n);
    lemma_u32_at_bytes(MAGIC_COOKIE);
    lemma_u32_at_bytes(id.w0);
    lemma_u32_at_bytes(id.w1);
    lemma_u32_at_bytes(id.w2);
    let none = Seq::<u8>::empty();
    let p0 = none + u16_bytes(t);
    let p1 = p0 + u16_bytes(n);
    let p2 = p1 + u32_bytes(MAGIC_COOKIE);
    let p3 = p2 + u32_bytes(id.w0);
    let p4 = p3 + u32_bytes(id.w1);
    let t5 = u32_bytes(id.w2) + body;
    let t4 = u32_bytes(id.w1) + t5;
    let t3 = u32_bytes(id.w0) + t4;
    let t2 = u32_bytes(MAGIC_COOKIE) + t3;
    let t1 = u16_bytes(n) + t2;
    lemma_u16_at_concat(none, t, t1);
    lemma_u16_at_concat(p0, n, t2);
    lemma_u32_at_concat(p1, MAGIC_COOKIE, t3);
    lemma_u32_at_concat(p2, id.w0, t4);
    lemma_u32_at_concat(p3, id.w1, t5);
    lemma_u32_at_concat(p4, id.w2, body);
    assert(b =~= none + u16_bytes(t) + t1);
    assert(b =~= p0 + u16_bytes(n) + t2);
    assert(b =~= p1 + u32_bytes(MAGIC_COOKIE) + t3);
    assert(b =~= p2 + u32_bytes(id.w0) + t4);
    assert(b =~= p3 + u32_bytes(id.w1) + t5);
    assert(b =~= p4 + u32_bytes(id.w2) + body);
    assert(b[0] == u16_bytes(t)[0]);
    assert(b[0] < 64) by {
        reveal(u16_bytes);
    }
}

/// The wire form of a well-formed attribute: four bytes of type and length,
/// then the value and its padding, a multiple of four bytes in all.
pub proof fn lemma_encode_attr_shape(a: AttributeSpec, id: TransactionId)
    requires
        attr_wf(a),
    ensures
        ({
            let e = encode_attr(a, id);
            let v = value_bytes(a, id);
            &&& v.len() <= 0xFFFF
            &&& e.len() == 4 + padded(v.len() as int)
            &&& e.len() % 4 == 0
            &&& u16_at(e, 0) == type_code(a)
            &&& u16_at(e, 2) == v.len()
            &&& e.subrange(4, 4 + v.len() as int) == v
        }),
{
    let e = encode_attr(a, id);
    let v = value_bytes(a, id);
    lemma_parse_value_bytes(a, id);
    let n = v.len() as u16;
    lemma_u16_at_bytes(type_code(a));
    lemma_u16_at_bytes(n);
    let none = Seq::<u8>::empty();
    let tail = v + zeros(padding(v.len() as int));
    lemma_u16_at_concat(none, type_code(a), u16_bytes(n) + tail);
    lemma_u16_at_concat(none + u16_bytes(type_code(a)), n, tail);
    assert(e =~= none + u16_bytes(type_code(a)) + (u16_bytes(n) + tail));
    assert(e =~= none + u16_bytes(type_code(a)) + u16_bytes(n) + tail);
    assert(e.subrange(4, 4 + v.len() as int) =~= v);
}

/// The wire form of a list with one more attribute at its end is the wire
/// form of the list followed by that of the attribute.
pub proof fn lemma_encode_attrs_push(s: Seq<AttributeSpec>, a: AttributeSpec, id: TransactionId)
    ensures
        encode_attrs(s.push(a), id) == encode_attrs(s, id) + encode_attr(a, id),
    decreases s.len(),
{
    if s.len() == 0 {
        assert(s.push(a).skip(1) =~= Seq::<AttributeSpec>::empty());
        assert(encode_attrs(s.push(a).skip(1), id) =~= Seq::<u8>::empty());
        assert(encode_attrs(s.push(a), id) =~= encode_attr(a, id));
        assert(encode_attrs(s, id) + encode_attr(a, id) =~= encode_attr(a, id));
    } else {
        assert(s.push(a).skip(1) =~= s.skip(1).push(a));
        lemma_encode_attrs_push(s.skip(1), a, id);
        assert(encode_attrs(s.push(a), id) =~= encode_attrs(s, id) + encode_attr(a, id));
    }
}

/// One step of decoding: a well-formed attribute in front of `tail` is read
/// back, and decoding goes on with `tail`.
proof fn lemma_parse_attrs_step(a: AttributeSpec, tail: Seq<u8>, id: TransactionId)
    requires
        attr_wf(a),
    ensures
        parse_attrs(encode_attr(a, id) + tail, id) == prepend(seq![a], parse_attrs(tail, id)),
{
    let e = encode_attr(a, id);
    let v = value_bytes(a, id);
    let b = e + tail;
    lemma_encode_attr_shape(a, id);
    lemma_parse_value_bytes(a, id);
    let len = v.len() as int;
    assert(u16_at(b, 0) == u16_at(e, 0));
    assert(u16_at(b, 2) == u16_at(e, 2));
    assert(b.subrange(4, 4 + len) =~= e.subrange(4, 4 + len));
    assert(b.skip(4 + padded(len)) =~= tail);
}

/// Decoding the wire form of well-formed attributes gives them back.
pub proof fn lemma_parse_attrs_encode(attrs: Seq<AttributeSpec>, id: TransactionId)
    requires
        forall|i: int| 0 <= i < attrs.len() ==> attr_wf(#[trigger] attrs[i]),
    ensures
        parse_attrs(encode_attrs(attrs, id), id) == Ok::<Seq<AttributeSpec>, DecodeError>(attrs),
        encode_attrs(attrs, id).len() % 4 == 0,
    decreases attrs.len(),
{
    if attrs.len() == 0 {
        assert(attrs =~= Seq::<AttributeSpec>::empty());
        assert(encode_attrs(attrs, id).len() == 0);
    } else {
        let a = attrs[0];
        let rest = attrs.skip(1);
        assert(encode_attrs(attrs, id) == encode_attr(a, id) + encode_attrs(rest, id));
        assert(attr_wf(a));
        assert forall|i: int| 0 <= i < rest.len() implies attr_wf(#[trigger] rest[i]) by {
            assert(rest[i] == attrs[i + 1]);
        }
        lemma_parse_attrs_encode(rest, id);
        lemma_encode_attr_shape(a, id);
        lemma_parse_attrs_step(a, encode_attrs(rest, id), id);
        assert(seq![a] + rest =~= attrs);
        assert(parse_attrs(encode_attrs(rest, id), id) == Ok::<Seq<AttributeSpec>, DecodeError>(
            rest,
        ));
        assert(prepend(seq![a], parse_attrs(encode_attrs(rest, id), id)) == Ok::<
            Seq<AttributeSpec>,
            DecodeError,
        >(seq![a] + rest));
    }
}

/// Decoding an encoded message gives the message back.
pub proof fn lemma_decode_encode(m: MessageSpec)
    requires
        m.wf(),
    ensures
        parse_message(encode_message(m)) == Ok::<MessageSpec, DecodeError>(m),
{
    let body = m.body();
    let b = encode_message(m);
    lemma_parse_attrs_encode(m.attributes, m.transaction_id);
    lemma_parse_header_bytes(m.header(), body);
    lemma_header_bytes_len(m.header(), body.len() as u16);
    assert(b.skip(HEADER_LEN as int) =~= body);
}

fn type_bits(class: Class, method: Method) -> (t: u16)
    ensures
        t == message_type(class, method),
{
    let c: u16 = match class {
        Class::Request => 0x0000,
        Class::Indication => 0x0010,
        Class::SuccessResponse => 0x0100,
        Class::ErrorResponse => 0x0110,
    };
    let m: u16 = match method {
        Method::Binding => 0x001,
        Method::Allocate => 0x003,
        Method::Refresh => 0x004,
        Method::Send => 0x006,
        Method::Data => 0x007,
        Method::CreatePermission => 0x008,
        Method::ChannelBind => 0x009,
    };
    c + m
}

fn read_type(t: u16) -> (r: Option<(Class, Method)>)
    ensures
        r == parse_type(t),
{
    let low: u16 = t % 16;
    let high: u16 = t - low;
    let class = if high == 0x0000 {
        Class::Request
    } else if high == 0x0010 {
        Class::Indication
    } else if high == 0x0100 {
        Class::SuccessResponse
    } else if high == 0x0110 {
        Class::ErrorResponse
    } else {
        return None;
    };
    let method = if low == 0x1 {
        Method::Binding
    } else if low == 0x3 {
        Method::Allocate
    } else if low == 0x4 {
        Method::Refresh
    } else if low == 0x6 {
        Method::Send
    } else if low == 0x7 {
        Method::Data
    } else if low == 0x8 {
        Method::CreatePermission
    } else if low == 0x9 {
        Method::ChannelBind
    } else {
        return None;
    };
    Some((class, method))
}

/// Reads the header of a datagram and checks it against the datagram's
/// length.
pub fn decode_header(b: &[u8]) -> (r: Result<Header, DecodeError>)
    ensures
        r == parse_header(b@),
{
    if b.len() < HEADER_LEN || b[0] >= 64 {
        return Err(DecodeError::NotStunFramed);
    }
    if read_u32(b, 4) != MAGIC_COOKIE {
        return Err(DecodeError::MalformedHeader);
    }
    let len: u16 = read_u16(b, 2);
    if len % 4 != 0 || b.len() - HEADER_LEN != len as usize {
        return Err(DecodeError::MalformedHeader);
    }
    match read_type(read_u16(b, 0)) {
        None => Err(DecodeError::MalformedHeader),
        Some((class, method)) => Ok(
            Header {
                class,
                method,
                transaction_id: TransactionId {
                    w0: read_u32(b, 8),
                    w1: read_u32(b, 12),
                    w2: read_u32(b, 16),
                },
            },
        ),
    }
}

/// Appends the header of a message whose attributes take `body_len` bytes.
pub fn write_header(out: &mut Vec<u8>, h: &Header, body_len: u16)
    ensures
        final(out)@ == old(out)@ + header_bytes(*h, body_len),
{
    push_u16(out, type_bits(h.class, h.method));
    push_u16(out, body_len);
    push_u32(out, MAGIC_COOKIE);
    push_u32(out, h.transaction_id.w0);
    push_u32(out, h.transaction_id.w1);
    push_u32(out, h.transaction_id.w2);
    assert(out@ =~= old(out)@ + header_bytes(*h, body_len));
}

impl Message {
    /// Decodes a datagram.
    pub fn decode(b: &[u8]) -> (r: Result<Message, DecodeError>)
        ensures
            decode_view(r) == parse_message(b@),
    {
        let h = match decode_header(b) {
            Ok(h) => h,
            Err(e) => {
                return Err(e);
            },
        };
        let id = h.transaction_id;
        let mut attributes: Vec<Attribute> = Vec::new();
        let mut pos: usize = HEADER_LEN;
        let ghost all = parse_attrs(b@.skip(HEADER_LEN as int), id);
        assert(attrs_view(attributes@) =~= Seq::<AttributeSpec>::empty());
        assert(all == prepend(attrs_view(attributes@), all)) by {
            if let Ok(s) = all {
                assert(attrs_view(attributes@) + s =~= s);
            }
        }
        while pos < b.len()
            invariant
                HEADER_LEN <= pos <= b@.len(),
                parse_header(b@) == Ok::<Header, DecodeError>(h),
                id == h.transaction_id,
                all == parse_attrs(b@.skip(HEADER_LEN as int), id),
                all == prepend(attrs_view(attributes@), parse_attrs(b@.skip(pos as int), id)),
            decreases b@.len() - pos,
        {
            let ghost rest = b@.skip(pos as int);
            let ghost before = attrs_view(attributes@);
            assert(rest.len() == b@.len() - pos);
            if b.len() - pos < 4 {
                return Err(DecodeError::MalformedAttribute);
            }
            let typ: u16 = read_u16(b, pos);
            let len: usize = read_u16(b, pos + 2) as usize;
            let pad: usize = (4 - len % 4) % 4;
            assert(u16_at(rest, 0) == typ);
            assert(u16_at(rest, 2) == len);
            if b.len() - pos - 4 < len + pad {
                return Err(DecodeError::MalformedAttribute);
            }
            let value = slice_subrange(b, pos + 4, pos + 4 + len);
            assert(value@ =~= rest.subrange(4, 4 + len as int));
            let ghost next = rest.skip(4 + padded(len as int));
            assert(next =~= b@.skip(pos + 4 + len + pad));
            match Attribute::read(typ, value, &id) {
                Err(e) => {
                    return Err(e);
                },
                Ok(a) => {
                    proof {
                        let tail = parse_attrs(next, id);
                        assert(parse_attrs(rest, id) == prepend(seq![a@], tail));
                        assert(attrs_view(attributes@.push(a)) =~= before.push(a@));
                        if let Ok(s) = tail {
                            assert(before + (seq![a@] + s) =~= before.push(a@) + s);
                        }
                    }
                    attributes.push(a);
                },
            }
            pos = pos + 4 + len + pad;
        }
        proof {
            assert(b@.skip(pos as int) =~= Seq::<u8>::empty());
            assert(attrs_view(attributes@) + Seq::<AttributeSpec>::empty() =~= attrs_view(
                attributes@,
            ));
        }
        Ok(Message { class: h.class, method: h.method, transaction_id: id, attributes })
    }

    /// Encodes the attributes, if each of them is well formed.
    pub fn encode_body(&self) -> (r: Option<Vec<u8>>)
        ensures
            match r {
                Some(b) => self@.attributes_wf() && b@ == self@.body(),
                None => !self@.attributes_wf(),
            },
    {
        let id = self.transaction_id;
        let ghost view = attrs_view(self.attributes@);
        let mut body: Vec<u8> = Vec::new();
        let mut i: usize = 0;
        assert(view.take(0) =~= Seq::<AttributeSpec>::empty());
        while i < self.attributes.len()
            invariant
                i <= self.attributes@.len(),
                id == self.transaction_id,
                view == attrs_view(self.attributes@),
                forall|k: int| 0 <= k < i ==> attr_wf(#[trigger] view[k]),
                body@ == encode_attrs(view.take(i as int), id),
            decreases self.attributes@.len() - i,
        {
            let a = &self.attributes[i];
            assert(view[i as int] == a@);
            if !a.is_valid() {
                assert(!attr_wf(self@.attributes[i as int]));
                return None;
            }
            a.write(&mut body, &id);
            proof {
                lemma_encode_attrs_push(view.take(i as int), a@, id);
                assert(view.take(i + 1) =~= view.take(i as int).push(a@));
            }
            i += 1;
        }
        assert(view.take(i as int) =~= view);
        Some(body)
    }

    /// The header of the message.
    pub fn header(&self) -> (h: Header)
        ensures
            h == self@.header(),
    {
        Header { class: self.class, method: self.method, transaction_id: self.transaction_id }
    }

    /// Encodes the message as a datagram, if it can be sent.
    pub fn encode(&self) -> (r: Option<Vec<u8>>)
        ensures
            match r {
                Some(b) => self@.wf() && b@ == encode_message(self@),
                None => !self@.wf(),
            },
    {
        let body = match self.encode_body() {
            None => {
                return None;
            },
            Some(b) => b,
        };
        if body.len() > 0xFFFF {
            return None;
        }
        let mut out: Vec<u8> = Vec::new();
        write_header(&mut out, &self.header(), body.len() as u16);
        push_bytes(&mut out, body.as_slice());
        Some(out)
    }

    /// The message without the attributes that come after its integrity
    /// tag.
    pub fn protected(self) -> (m: Message)
        ensures
            m@ == self@.protected(),
    {
        let ghost view = attrs_view(self.attributes@);
        let mut i: usize = 0;
        while i < self.attributes.len()
            invariant
                i <= self.attributes@.len(),
                view == attrs_view(self.attributes@),
                forall|k: int| 0 <= k < i ==> type_code(#[trigger] view[k]) != ATTR_MESSAGE_INTEGRITY,
            decreases self.attributes@.len() - i,
        {
            assert(view[i as int] == self.attributes@[i as int]@);
            if self.attributes[i].code() == ATTR_MESSAGE_INTEGRITY {
                proof {
                    lemma_first_index(view, ATTR_MESSAGE_INTEGRITY, i as int);
                }
                let mut attributes = self.attributes;
                attributes.truncate(i + 1);
                assert(attrs_view(attributes@) =~= view.take(i + 1));
                return Message {
                    class: self.class,
                    method: self.method,
                    transaction_id: self.transaction_id,
                    attributes,
                };
            }
            i += 1;
        }
        self
    }

    /// The first attribute with type code `typ`.
    pub fn find(&self, typ: u16) -> (r: Option<&Attribute>)
        ensures
            match r {
                Some(a) => first_of(self@.attributes, typ) == Some(a@),
                None => !has_type(self@.attributes, typ),
            },
    {
        let ghost view = attrs_view(self.attributes@);
        let mut i: usize = 0;
        while i < self.attributes.len()
            invariant
                i <= self.attributes@.len(),
                view == attrs_view(self.attributes@),
                forall|k: int| 0 <= k < i ==> type_code(#[trigger] view[k]) != typ,
            decreases self.attributes@.len() - i,
        {
            let a = &self.attributes[i];
            assert(view[i as int] == a@);
            if a.code() == typ {
                proof {
                    lemma_first_of(view, typ, i as int);
                }
                return Some(a);
            }
            i += 1;
        }
        None
    }

    /// The value of the first attribute with type code `typ`, where that is
    /// a user name, a realm, a nonce or data.
    pub fn text(&self, typ: u16) -> (r: Option<&Vec<u8>>)
        ensures
            match r {
                Some(v) => text_of(self@.attributes, typ) == Some(v@),
                None => text_of(self@.attributes, typ).is_none(),
            },
    {
        match self.find(typ) {
            Some(Attribute::Username(v)) => Some(v),
            Some(Attribute::Realm(v)) => Some(v),
            Some(Attribute::Nonce(v)) => Some(v),
            Some(Attribute::Data(v)) => Some(v),
            _ => None,
        }
    }

    /// The lifetime that the message asks for or grants.
    pub fn lifetime(&self) -> (r: Option<u32>)
        ensures
            r == lifetime_of(self@.attributes),
    {
        match self.find(ATTR_LIFETIME) {
            Some(Attribute::Lifetime(s)) => Some(*s),
            _ => None,
        }
    }

    /// The protocol number of the transport that the message asks for.
    pub fn requested_transport(&self) -> (r: Option<u8>)
        ensures
            r == transport_of(self@.attributes),
    {
        match self.find(ATTR_REQUESTED_TRANSPORT) {
            Some(Attribute::RequestedTransport(p)) => Some(*p),
            _ => None,
        }
    }

    /// The channel number in the message.
    pub fn channel_number(&self) -> (r: Option<u16>)
        ensures
            r == channel_of(self@.attributes),
    {
        match self.find(ATTR_CHANNEL_NUMBER) {
            Some(Attribute::ChannelNumber(n)) => Some(*n),
            _ => None,
        }
    }

    /// The first peer address in the message.
    pub fn peer(&self) -> (r: Option<TransportAddr>)
        ensures
            r == peer_of(self@.attributes),
    {
        match self.find(ATTR_XOR_PEER_ADDRESS) {
            Some(Attribute::XorPeerAddress(a)) => Some(*a),
            _ => None,
        }
    }

    /// Every peer address in the message, in order.
    pub fn peers(&self) -> (r: Vec<TransportAddr>)
        ensures
            r@ == peers_of(self@.attributes),
    {
        let ghost view = attrs_view(self.attributes@);
        let mut out: Vec<TransportAddr> = Vec::new();
        let mut i: usize = 0;
        assert(view.take(0) =~= Seq::<AttributeSpec>::empty());
        while i < self.attributes.len()
            invariant
                i <= self.attributes@.len(),
                view == attrs_view(self.attributes@),
                out@ == peers_of(view.take(i as int)),
            decreases self.attributes@.len() - i,
        {
            let a = &self.attributes[i];
            proof {
                assert(view[i as int] == a@);
                assert(view.take(i + 1).drop_last() =~= view.take(i as int));
                assert(view.take(i + 1).last() == a@);
            }
            if let Attribute::XorPeerAddress(p) = a {
                out.push(*p);
            }
            i += 1;
        }
        assert(view.take(i as int) =~= view);
        out
    }
}

} // verus!
