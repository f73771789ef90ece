//! The data path: what leaves the relay towards a peer, and what a peer's
//! datagram becomes on its way to the client.

use vstd::prelude::*;
use crate::addr::{ClientTuple, TransactionId, TransportAddr};
use crate::allocation::{
    live, permit_post, relays_on, table_wf, Allocation, AllocationTable, NotFound, TableConfig,
};
use crate::attr::{Attribute, AttributeSpec};
use crate::chandata::{encode_channel_data, ChannelData, ChannelDataSpec};
use crate::message::{encode_message, Class, Message, MessageSpec, Method};
use crate::peers::{binds, channels_wf, permitted, ChannelBinding};
use crate::wire::copy_range;

verus! {

/// Why a client's payload does not go out to a peer.
#[derive(Clone, Copy, Debug, PartialEq, Eq, Structural)]
pub enum SendError {
    /// The client holds no allocation.
    NoAllocation,
    /// The peer's address holds no permission.
    NoPermission,
}

/// What sending from the client of `tuple` to `peer` at `now` comes to: the
/// relay address to send from, with the peer's permission refreshed, where
/// the client holds an allocation and the peer's address a permission, and
/// else the reason, with the table as it was.
pub open spec fn send_post(
    before: Map<ClientTuple, Allocation>,
    after: Map<ClientTuple, Allocation>,
    cfg: TableConfig,
    tuple: ClientTuple,
    peer: TransportAddr,
    now: u64,
    r: Result<TransportAddr, SendError>,
) -> bool {
    if !live(before, tuple, now) {
        &&& after == before
        &&& r == Err::<TransportAddr, SendError>(SendError::NoAllocation)
    } else if !permitted(before[tuple].peers.permissions(), peer.ip, now) {
        &&& after == before
        &&& r == Err::<TransportAddr, SendError>(SendError::NoPermission)
    } else {
        &&& r == Ok::<TransportAddr, SendError>(before[tuple].relay)
        &&& permit_post(before, after, cfg, tuple, peer.ip, now, Ok::<(), NotFound>(()))
    }
}

/// Decides whether a payload of the client of `tuple` may go out to `peer`,
/// and from which relay address.
pub fn send_to_peer(table: &mut AllocationTable, tuple: ClientTuple, peer: TransportAddr, now: u64)
    -> (r: Result<TransportAddr, SendError>)
    requires
        old(table).wf(),
    ensures
        final(table).wf(),
        final(table).config() == old(table).config(),
        send_post(
            old(table).allocations(),
            final(table).allocations(),
            old(table).config(),
            tuple,
            peer,
            now,
            r,
        ),
{
    let relay = match table.lookup(tuple, now) {
        None => {
            return Err(SendError::NoAllocation);
        },
        Some(a) => {
            if !a.peers.has_permission(peer.ip, now) {
                return Err(SendError::NoPermission);
            }
            a.relay
        },
    };
    let _ = table.create_permission(tuple, peer.ip, now);
    Ok(relay)
}

/// The indication that carries a peer's payload to the client.
pub open spec fn data_indication(peer: TransportAddr, payload: Seq<u8>, id: TransactionId)
    -> MessageSpec {
    MessageSpec {
        class: Class::Indication,
        method: Method::Data,
        transaction_id: id,
        attributes: seq![AttributeSpec::XorPeerAddress(peer), AttributeSpec::Data(payload)],
    }
}

/// The channel that is bound to `peer` at `now`.
pub open spec fn channel_to(ch: Map<u16, ChannelBinding>, peer: TransportAddr, now: u64) -> Option<
    u16,
> {
    if exists|c: u16| binds(ch, c, peer, now) {
        Some(choose|c: u16| binds(ch, c, peer, now))
    } else {
        None
    }
}

/// The datagram that carries a peer's payload to the client: a ChannelData
/// frame where a channel is bound to the peer, and a Data indication else.
/// There is none where the payload is too long for either.
pub open spec fn framed(
    ch: Map<u16, ChannelBinding>,
    peer: TransportAddr,
    payload: Seq<u8>,
    now: u64,
    id: TransactionId,
) -> Option<Seq<u8>> {
    match channel_to(ch, peer, now) {
        Some(c) => if payload.len() <= 0xFFFF {
            Some(encode_channel_data(ChannelDataSpec { number: c, data: payload }))
        } else {
            None
        },
        None => if data_indication(peer, payload, id).wf() {
            Some(encode_message(data_indication(peer, payload, id)))
        } else {
            None
        },
    }
}

/// The client whose allocation exists at `now` and has relay port `port`.
pub open spec fn relay_owner(m: Map<ClientTuple, Allocation>, port: u16, now: u64) -> Option<
    ClientTuple,
> {
    if exists|t: ClientTuple| relays_on(m, t, port, now) {
        Some(choose|t: ClientTuple| relays_on(m, t, port, now))
    } else {
        None
    }
}

/// What becomes of a payload that `peer` sent to relay port `port`: the
/// client that it goes to and the datagram that carries it, or nothing
/// where no allocation has the port, the peer's address holds no
/// permission, or the payload is too long.
pub open spec fn delivery(
    m: Map<ClientTuple, Allocation>,
    port: u16,
    peer: TransportAddr,
    payload: Seq<u8>,
    now: u64,
    id: TransactionId,
) -> Option<(ClientTuple, Seq<u8>)> {
    match relay_owner(m, port, now) {
        None => None,
        Some(t) => if !permitted(m[t].peers.permissions(), peer.ip, now) {
            None
        } else {
            match framed(m[t].peers.channels(), peer, payload, now, id) {
                None => None,
                Some(b) => Some((t, b)),
            }
        },
    }
}

/// The mathematical value of a delivery.
pub open spec fn delivery_view(r: Option<(ClientTuple, Vec<u8>)>) -> Option<
    (ClientTuple, Seq<u8>),
> {
    match r {
        Some((t, b)) => Some((t, b@)),
        None => None,
    }
}

/// Nothing reaches a client from a peer whose address holds no permission
/// with the allocation that it sends to.
pub proof fn lemma_unpermitted_dropped(
    m: Map<ClientTuple, Allocation>,
    port: u16,
    peer: TransportAddr,
    payload: Seq<u8>,
    now: u64,
    id: TransactionId,
)
    requires
        forall|t: ClientTuple|
            relays_on(m, t, port, now) ==> !permitted(m[t].peers.permissions(), peer.ip, now),
    ensures
        delivery(m, port, peer, payload, now, id).is_none(),
{
}

/// What is delivered goes to the one client whose allocation has the port,
/// and the peer's address holds a permission with it.
pub proof fn lemma_delivery_permitted(
    m: Map<ClientTuple, Allocation>,
    port: u16,
    peer: TransportAddr,
    payload: Seq<u8>,
    now: u64,
    id: TransactionId,
)
    requires
        delivery(m, port, peer, payload, now, id).is_some(),
    ensures
        ({
            let t = delivery(m, port, peer, payload, now, id).unwrap().0;
            relays_on(m, t, port, now) && permitted(m[t].peers.permissions(), peer.ip, now)
        }),
{
}

/// In a sound table at most one allocation has a given relay port.
pub proof fn lemma_relay_owner(
    m: Map<ClientTuple, Allocation>,
    cfg: TableConfig,
    t: ClientTuple,
    port: u16,
    now: u64,
)
    requires
        table_wf(m, cfg),
        relays_on(m, t, port, now),
    ensures
        relay_owner(m, port, now) == Some(t),
{
    let u = choose|u: ClientTuple| relays_on(m, u, port, now);
    assert(m.contains_key(u) && m.contains_key(t));
}

/// Among sound bindings at most one channel is bound to a given peer.
pub proof fn lemma_channel_to(ch: Map<u16, ChannelBinding>, c: u16, peer: TransportAddr, now: u64)
    requires
        channels_wf(ch),
        binds(ch, c, peer, now),
    ensures
        channel_to(ch, peer, now) == Some(c),
{
    let d = choose|d: u16| binds(ch, d, peer, now);
    assert(ch.contains_key(d) && ch.contains_key(c));
}

/// Frames a peer's payload for the client of allocation `a`.
pub fn frame_for(a: &Allocation, peer: TransportAddr, payload: &[u8], now: u64, id: TransactionId)
    -> (r: Option<Vec<u8>>)
    requires
        a.peers.wf(),
    ensures
        match r {
            Some(b) => framed(a.peers.channels(), peer, payload@, now, id) == Some(b@),
            None => framed(a.peers.channels(), peer, payload@, now, id).is_none(),
        },
{
    let data = copy_range(payload, 0, payload.len());
    assert(data@ =~= payload@);
    match a.peers.channel_for(peer, now) {
        Some(c) => {
            proof {
                lemma_channel_to(a.peers.channels(), c, peer, now);
            }
            let frame = ChannelData { number: c, data };
            frame.encode()
        },
        None => {
            let mut attributes: Vec<Attribute> = Vec::new();
            attributes.push(Attribute::XorPeerAddress(peer));
            attributes.push(Attribute::Data(data));
            let m = Message {
                class: Class::Indication,
                method: Method::Data,
                transaction_id: id,
                attributes,
            };
            assert(m@.attributes =~= data_indication(peer, payload@, id).attributes);
            m.encode()
        },
    }
}

/// Decides what becomes of a payload that `peer` sent to relay port `port`.
/// `id` is the transaction identifier for a Data indication.
pub fn deliver_from_peer(
    table: &AllocationTable,
    port: u16,
    peer: TransportAddr,
    payload: &[u8],
    now: u64,
    id: TransactionId,
) -> (r: Option<(ClientTuple, Vec<u8>)>)
    requires
        table.wf(),
    ensures
        delivery_view(r) == delivery(table.allocations(), port, peer, payload@, now, id),
{
    let a = match table.find_by_relay(port, now) {
        None => {
            return None;
        },
        Some(a) => a,
    };
    proof {
        lemma_relay_owner(table.allocations(), table.config(), a.tuple, port, now);
    }
    if !a.peers.has_permission(peer.ip, now) {
        return None;
    }
    match frame_for(a, peer, payload, now, id) {
        None => None,
        Some(b) => Some((a.tuple, b)),
    }
}

} // verus!
