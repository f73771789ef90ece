//! Network addresses, client tuples and transaction identifiers.

use vstd::prelude::*;

verus! {

/// The fixed value in bytes 4..8 of every STUN message.
pub const MAGIC_COOKIE: u32 = 0x2112_A442;

/// The upper half of the magic cookie, which masks ports.
pub const PORT_MASK: u16 = 0x2112;

/// An IP address. An IPv6 address is held as four 32-bit words, the first
/// one holding the first four bytes of the address.
#[derive(Clone, Copy, Debug, PartialEq, Eq, Hash, Structural)]
pub enum IpAddress {
    V4(u32),
    V6(u32, u32, u32, u32),
}

/// An IP address and a port.
#[derive(Clone, Copy, Debug, PartialEq, Eq, Hash, Structural)]
pub struct TransportAddr {
    pub ip: IpAddress,
    pub port: u16,
}

/// The transport protocol between a client and the server.
#[derive(Clone, Copy, Debug, PartialEq, Eq, Hash, Structural)]
pub enum Transport {
    Udp,
    Tcp,
}

/// What identifies a client session at the transport layer.
#[derive(Clone, Copy, Debug, PartialEq, Eq, Hash, Structural)]
pub struct ClientTuple {
    pub transport: Transport,
    pub client: TransportAddr,
    pub server: TransportAddr,
}

/// The 96-bit identifier of a transaction, as three 32-bit words in wire
/// order.
#[derive(Clone, Copy, Debug, PartialEq, Eq, Hash, Structural)]
pub struct TransactionId {
    pub w0: u32,
    pub w1: u32,
    pub w2: u32,
}

/// The address with its port and its IP masked by the magic cookie and, for
/// IPv6, the transaction identifier.
pub open spec fn xor_addr(a: TransportAddr, id: TransactionId) -> TransportAddr {
    TransportAddr {
        port: a.port ^ PORT_MASK,
        ip: match a.ip {
            IpAddress::V4(w) => IpAddress::V4(w ^ MAGIC_COOKIE),
            IpAddress::V6(a0, a1, a2, a3) => IpAddress::V6(
                a0 ^ MAGIC_COOKIE,
                a1 ^ id.w0,
                a2 ^ id.w1,
                a3 ^ id.w2,
            ),
        },
    }
}

/// Masking twice gives the address back.
pub proof fn lemma_xor_addr_involutive(a: TransportAddr, id: TransactionId)
    ensures
        xor_addr(xor_addr(a, id), id) == a,
{
    assert(forall|x: u32, k: u32| #[trigger] ((x ^ k) ^ k) == x) by (bit_vector);
    assert(forall|x: u16, k: u16| #[trigger] ((x ^ k) ^ k) == x) by (bit_vector);
}

impl TransportAddr {
    /// Masks or unmasks the address.
    pub fn xor(&self, id: &TransactionId) -> (out: TransportAddr)
        ensures
            out == xor_addr(*self, *id),
    {
        let ip = match self.ip {
            IpAddress::V4(w) => IpAddress::V4(w ^ MAGIC_COOKIE),
            IpAddress::V6(a0, a1, a2, a3) => IpAddress::V6(
                a0 ^ MAGIC_COOKIE,
                a1 ^ id.w0,
                a2 ^ id.w1,
                a3 ^ id.w2,
            ),
        };
        TransportAddr { ip, port: self.port ^ PORT_MASK }
    }
}

} // verus!
