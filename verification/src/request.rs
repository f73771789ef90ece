//! What each authenticated request does to the allocation table, and what
//! the server answers.

use vstd::prelude::*;
use crate::addr::{ClientTuple, IpAddress, TransportAddr};
use crate::allocation::{
    allocate_post, bind_post, live, refresh_post, same_but_peers, AllocError, Allocation,
    AllocationTable, ChannelError, Grant, NotFound, Refreshed, TableConfig,
};
use crate::attr::{Attribute, AttributeSpec};
use crate::message::{
    attrs_view, channel_of, lifetime_of, peer_of, peers_of, transport_of, Class, Header, Message,
    MessageSpec,
};
use crate::peers::{after_permit, Permission};

verus! {

/// The error codes that the server answers with.
pub const CODE_BAD_REQUEST: u16 = 400;

pub const CODE_UNAUTHORIZED: u16 = 401;

pub const CODE_UNKNOWN_ATTRIBUTE: u16 = 420;

pub const CODE_ALLOCATION_MISMATCH: u16 = 437;

pub const CODE_STALE_NONCE: u16 = 438;

pub const CODE_UNSUPPORTED_TRANSPORT: u16 = 442;

pub const CODE_QUOTA_REACHED: u16 = 486;

pub const CODE_INSUFFICIENT_CAPACITY: u16 = 508;

/// The protocol number of UDP, the one transport that is relayed.
pub const PROTO_UDP: u8 = 17;

/// The answer of class `class` to the request with header `h`.
pub open spec fn response(h: Header, class: Class, attributes: Seq<AttributeSpec>) -> MessageSpec {
    MessageSpec { class, method: h.method, transaction_id: h.transaction_id, attributes }
}

/// The error response with code `code`.
pub open spec fn error_response(h: Header, code: u16) -> MessageSpec {
    response(
        h,
        Class::ErrorResponse,
        seq![AttributeSpec::ErrorCode { code, reason: Seq::empty() }],
    )
}

/// The error response that asks the client to try again with `realm` and
/// `nonce`.
pub open spec fn challenge_response(h: Header, code: u16, realm: Seq<u8>, nonce: Seq<u8>)
    -> MessageSpec {
    response(
        h,
        Class::ErrorResponse,
        seq![
            AttributeSpec::ErrorCode { code, reason: Seq::empty() },
            AttributeSpec::Nonce(nonce),
            AttributeSpec::Realm(realm),
        ],
    )
}

/// The error response that names an attribute type which the server does
/// not know and may not ignore.
pub open spec fn unknown_attribute_response(h: Header, typ: u16) -> MessageSpec {
    response(
        h,
        Class::ErrorResponse,
        seq![
            AttributeSpec::ErrorCode { code: CODE_UNKNOWN_ATTRIBUTE, reason: Seq::empty() },
            AttributeSpec::UnknownAttributes(seq![typ]),
        ],
    )
}

/// The success response with the given attributes.
pub open spec fn success_response(h: Header, attributes: Seq<AttributeSpec>) -> MessageSpec {
    response(h, Class::SuccessResponse, attributes)
}

/// The answer to a Binding request from `client`.
pub open spec fn binding_response(h: Header, client: TransportAddr) -> MessageSpec {
    success_response(h, seq![AttributeSpec::XorMappedAddress(client)])
}

fn respond(h: &Header, class: Class, attributes: Vec<Attribute>) -> (m: Message)
    ensures
        m@ == response(*h, class, attrs_view(attributes@)),
{
    Message { class, method: h.method, transaction_id: h.transaction_id, attributes }
}

/// Builds the error response with code `code`.
pub fn error_message(h: &Header, code: u16) -> (m: Message)
    ensures
        m@ == error_response(*h, code),
{
    let mut attributes: Vec<Attribute> = Vec::new();
    attributes.push(Attribute::ErrorCode { code, reason: Vec::new() });
    assert(attrs_view(attributes@) =~= error_response(*h, code).attributes);
    respond(h, Class::ErrorResponse, attributes)
}

/// Builds the error response that asks the client to try again.
pub fn challenge_message(h: &Header, code: u16, realm: &[u8], nonce: &[u8]) -> (m: Message)
    ensures
        m@ == challenge_response(*h, code, realm@, nonce@),
{
    let r = crate::wire::copy_range(realm, 0, realm.len());
    let n = crate::wire::copy_range(nonce, 0, nonce.len());
    assert(r@ =~= realm@);
    assert(n@ =~= nonce@);
    let mut attributes: Vec<Attribute> = Vec::new();
    attributes.push(Attribute::ErrorCode { code, reason: Vec::new() });
    attributes.push(Attribute::Nonce(n));
    attributes.push(Attribute::Realm(r));
    assert(attrs_view(attributes@) =~= challenge_response(*h, code, realm@, nonce@).attributes);
    respond(h, Class::ErrorResponse, attributes)
}

/// Builds the error response that names an unknown attribute type.
pub fn unknown_attribute_message(h: &Header, typ: u16) -> (m: Message)
    ensures
        m@ == unknown_attribute_response(*h, typ),
{
    let mut types: Vec<u16> = Vec::new();
    types.push(typ);
    assert(types@ =~= seq![typ]);
    let mut attributes: Vec<Attribute> = Vec::new();
    attributes.push(Attribute::ErrorCode { code: CODE_UNKNOWN_ATTRIBUTE, reason: Vec::new() });
    attributes.push(Attribute::UnknownAttributes(types));
    assert(attrs_view(attributes@) =~= unknown_attribute_response(*h, typ).attributes);
    respond(h, Class::ErrorResponse, attributes)
}

/// Builds the answer to a Binding request from `client`.
pub fn binding_message(h: &Header, client: TransportAddr) -> (m: Message)
    ensures
        m@ == binding_response(*h, client),
{
    let mut attributes: Vec<Attribute> = Vec::new();
    attributes.push(Attribute::XorMappedAddress(client));
    assert(attrs_view(attributes@) =~= binding_response(*h, client).attributes);
    respond(h, Class::SuccessResponse, attributes)
}

/// What a request came to: the answer, and the relay endpoints to close
/// and to open before it is sent.
#[derive(Debug)]
pub struct Handled {
    pub response: Message,
    pub open: Option<TransportAddr>,
    pub close: Option<TransportAddr>,
}

/// The mathematical value of a [`Handled`].
pub ghost struct HandledSpec {
    pub response: MessageSpec,
    pub open: Option<TransportAddr>,
    pub close: Option<TransportAddr>,
}

impl View for Handled {
    type V = HandledSpec;

    open spec fn view(&self) -> HandledSpec {
        HandledSpec { response: self.response@, open: self.open, close: self.close }
    }
}

/// An answer that opens and closes nothing.
pub open spec fn only(response: MessageSpec) -> HandledSpec {
    HandledSpec { response, open: None, close: None }
}

/// The answer to an Allocate that came to `r`.
pub open spec fn allocate_reply(h: Header, client: TransportAddr, r: Result<Grant, AllocError>)
    -> HandledSpec {
    match r {
        Ok(g) => HandledSpec {
            response: success_response(
                h,
                seq![
                    AttributeSpec::XorRelayedAddress(g.relay),
                    AttributeSpec::Lifetime(g.lifetime),
                    AttributeSpec::XorMappedAddress(client),
                ],
            ),
            open: if g.created {
                Some(g.relay)
            } else {
                None
            },
            close: g.released,
        },
        Err(AllocError::Mismatch) => only(error_response(h, CODE_ALLOCATION_MISMATCH)),
        Err(AllocError::QuotaReached) => only(error_response(h, CODE_QUOTA_REACHED)),
        Err(AllocError::InsufficientCapacity) => only(
            error_response(h, CODE_INSUFFICIENT_CAPACITY),
        ),
    }
}

/// What an Allocate request of user `username` does: without a requested
/// transport it is a bad request, with another than UDP it is refused, and
/// else the table decides.
pub open spec fn allocate_handled(
    before: Map<ClientTuple, Allocation>,
    after: Map<ClientTuple, Allocation>,
    cfg: TableConfig,
    tuple: ClientTuple,
    m: MessageSpec,
    username: Seq<u8>,
    realm: Seq<u8>,
    now: u64,
    out: HandledSpec,
) -> bool {
    match transport_of(m.attributes) {
        None => after == before && out == only(error_response(m.header(), CODE_BAD_REQUEST)),
        Some(p) => if p != PROTO_UDP {
            after == before && out == only(error_response(m.header(), CODE_UNSUPPORTED_TRANSPORT))
        } else {
            exists|r: Result<Grant, AllocError>|
                #[trigger] allocate_post(
                    before,
                    after,
                    cfg,
                    tuple,
                    username,
                    realm,
                    m.transaction_id,
                    lifetime_of(m.attributes),
                    now,
                    r,
                ) && out == allocate_reply(m.header(), tuple.client, r)
        },
    }
}

/// Handles an Allocate request of an authenticated user.
pub fn handle_allocate(
    table: &mut AllocationTable,
    tuple: ClientTuple,
    msg: &Message,
    username: &[u8],
    realm: &[u8],
    now: u64,
) -> (out: Handled)
    requires
        old(table).wf(),
    ensures
        final(table).wf(),
        final(table).config() == old(table).config(),
        allocate_handled(
            old(table).allocations(),
            final(table).allocations(),
            old(table).config(),
            tuple,
            msg@,
            username@,
            realm@,
            now,
            out@,
        ),
{
    let h = msg.header();
    match msg.requested_transport() {
        None => {
            return Handled {
                response: error_message(&h, CODE_BAD_REQUEST),
                open: None,
                close: None,
            };
        },
        Some(p) => {
            if p != PROTO_UDP {
                return Handled {
                    response: error_message(&h, CODE_UNSUPPORTED_TRANSPORT),
                    open: None,
                    close: None,
                };
            }
        },
    }
    let r = table.allocate(tuple, username, realm, msg.transaction_id, msg.lifetime(), now);
    match r {
        Ok(g) => {
            let mut attributes: Vec<Attribute> = Vec::new();
            attributes.push(Attribute::XorRelayedAddress(g.relay));
            attributes.push(Attribute::Lifetime(g.lifetime));
            attributes.push(Attribute::XorMappedAddress(tuple.client));
            assert(attrs_view(attributes@) =~= allocate_reply(
                h,
                tuple.client,
                r,
            ).response.attributes);
            Handled {
                response: respond(&h, Class::SuccessResponse, attributes),
                open: if g.created {
                    Some(g.relay)
                } else {
                    None
                },
                close: g.released,
            }
        },
        Err(AllocError::Mismatch) => Handled {
            response: error_message(&h, CODE_ALLOCATION_MISMATCH),
            open: None,
            close: None,
        },
        Err(AllocError::QuotaReached) => Handled {
            response: error_message(&h, CODE_QUOTA_REACHED),
            open: None,
            close: None,
        },
        Err(AllocError::InsufficientCapacity) => Handled {
            response: error_message(&h, CODE_INSUFFICIENT_CAPACITY),
            open: None,
            close: None,
        },
    }
}

/// The answer to a Refresh that came to `r`.
pub open spec fn refresh_reply(h: Header, r: Result<Refreshed, NotFound>) -> HandledSpec {
    match r {
        Ok(f) => HandledSpec {
            response: success_response(h, seq![AttributeSpec::Lifetime(f.lifetime)]),
            open: None,
            close: f.released,
        },
        Err(_) => only(error_response(h, CODE_ALLOCATION_MISMATCH)),
    }
}

/// What a Refresh request does: the table decides.
pub open spec fn refresh_handled(
    before: Map<ClientTuple, Allocation>,
    after: Map<ClientTuple, Allocation>,
    cfg: TableConfig,
    tuple: ClientTuple,
    m: MessageSpec,
    now: u64,
    out: HandledSpec,
) -> bool {
    exists|r: Result<Refreshed, NotFound>|
        #[trigger] refresh_post(before, after, cfg, tuple, lifetime_of(m.attributes), now, r)
            && out == refresh_reply(m.header(), r)
}

/// Handles a Refresh request of an authenticated user.
pub fn handle_refresh(table: &mut AllocationTable, tuple: ClientTuple, msg: &Message, now: u64)
    -> (out: Handled)
    requires
        old(table).wf(),
    ensures
        final(table).wf(),
        final(table).config() == old(table).config(),
        refresh_handled(
            old(table).allocations(),
            final(table).allocations(),
            old(table).config(),
            tuple,
            msg@,
            now,
            out@,
        ),
{
    let h = msg.header();
    let r = table.refresh(tuple, msg.lifetime(), now);
    match r {
        Ok(f) => {
            let mut attributes: Vec<Attribute> = Vec::new();
            attributes.push(Attribute::Lifetime(f.lifetime));
            assert(attrs_view(attributes@) =~= refresh_reply(h, r).response.attributes);
            Handled {
                response: respond(&h, Class::SuccessResponse, attributes),
                open: None,
                close: f.released,
            }
        },
        Err(_) => Handled {
            response: error_message(&h, CODE_ALLOCATION_MISMATCH),
            open: None,
            close: None,
        },
    }
}

/// Whether a peer address is of the family that the relay serves.
pub open spec fn peer_acceptable(cfg: TableConfig, peer: TransportAddr) -> bool {
    (cfg.relay_ip is V4) == (peer.ip is V4)
}

/// Whether a peer address is of the family that the relay serves.
pub fn peer_ok(cfg: &TableConfig, peer: &TransportAddr) -> (ok: bool)
    ensures
        ok == peer_acceptable(*cfg, *peer),
{
    match (cfg.relay_ip, peer.ip) {
        (IpAddress::V4(_), IpAddress::V4(_)) => true,
        (IpAddress::V6(_, _, _, _), IpAddress::V6(_, _, _, _)) => true,
        _ => false,
    }
}

/// The answer to a ChannelBind that came to `r`.
pub open spec fn bind_reply(h: Header, r: Result<(), ChannelError>) -> HandledSpec {
    match r {
        Ok(_) => only(success_response(h, Seq::empty())),
        Err(ChannelError::NoAllocation) => only(error_response(h, CODE_ALLOCATION_MISMATCH)),
        Err(ChannelError::Rejected(_)) => only(error_response(h, CODE_BAD_REQUEST)),
    }
}

/// What a ChannelBind request does: without a channel number or a peer
/// address, or with a peer of the wrong family, it is a bad request, and
/// else the table decides.
pub open spec fn bind_handled(
    before: Map<ClientTuple, Allocation>,
    after: Map<ClientTuple, Allocation>,
    cfg: TableConfig,
    tuple: ClientTuple,
    m: MessageSpec,
    now: u64,
    out: HandledSpec,
) -> bool {
    match (channel_of(m.attributes), peer_of(m.attributes)) {
        (Some(number), Some(peer)) => if !peer_acceptable(cfg, peer) {
            after == before && out == only(error_response(m.header(), CODE_BAD_REQUEST))
        } else {
            exists|r: Result<(), ChannelError>|
                #[trigger] bind_post(before, after, cfg, tuple, number, peer, now, r) && out
                    == bind_reply(m.header(), r)
        },
        _ => after == before && out == only(error_response(m.header(), CODE_BAD_REQUEST)),
    }
}

/// Handles a ChannelBind request of an authenticated user.
pub fn handle_channel_bind(
    table: &mut AllocationTable,
    tuple: ClientTuple,
    msg: &Message,
    now: u64,
) -> (out: Handled)
    requires
        old(table).wf(),
    ensures
        final(table).wf(),
        final(table).config() == old(table).config(),
        bind_handled(
            old(table).allocations(),
            final(table).allocations(),
            old(table).config(),
            tuple,
            msg@,
            now,
            out@,
        ),
{
    let h = msg.header();
    let cfg = table.settings();
    let (number, peer) = match (msg.channel_number(), msg.peer()) {
        (Some(n), Some(p)) => (n, p),
        _ => {
            return Handled {
                response: error_message(&h, CODE_BAD_REQUEST),
                open: None,
                close: None,
            };
        },
    };
    if !peer_ok(&cfg, &peer) {
        return Handled { response: error_message(&h, CODE_BAD_REQUEST), open: None, close: None };
    }
    let r = table.bind_channel(tuple, number, peer, now);
    let response = match r {
        Ok(_) => {
            let attributes: Vec<Attribute> = Vec::new();
            assert(attrs_view(attributes@) =~= Seq::<AttributeSpec>::empty());
            respond(&h, Class::SuccessResponse, attributes)
        },
        Err(ChannelError::NoAllocation) => error_message(&h, CODE_ALLOCATION_MISMATCH),
        Err(ChannelError::Rejected(_)) => error_message(&h, CODE_BAD_REQUEST),
    };
    Handled { response, open: None, close: None }
}

/// The permissions after each of `peers` was given one at `now`, in order.
pub open spec fn permit_all(
    perms: Map<IpAddress, Permission>,
    peers: Seq<TransportAddr>,
    now: u64,
    lifetime: u64,
) -> Map<IpAddress, Permission>
    decreases peers.len(),
{
    if peers.len() == 0 {
        perms
    } else {
        after_permit(permit_all(perms, peers.drop_last(), now, lifetime), peers.last().ip, now, lifetime)
    }
}

/// Whether every one of `peers` is of the family that the relay serves.
pub open spec fn peers_acceptable(cfg: TableConfig, peers: Seq<TransportAddr>) -> bool {
    forall|i: int| 0 <= i < peers.len() ==> peer_acceptable(cfg, #[trigger] peers[i])
}

/// What a CreatePermission request does. Without a peer address, or with
/// one of the wrong family, it is a bad request and nothing changes.
/// Without an allocation it is refused. Else every peer address in the
/// request is given a permission.
pub open spec fn permission_handled(
    before: Map<ClientTuple, Allocation>,
    after: Map<ClientTuple, Allocation>,
    cfg: TableConfig,
    tuple: ClientTuple,
    m: MessageSpec,
    now: u64,
    out: HandledSpec,
) -> bool {
    let peers = peers_of(m.attributes);
    if peers.len() == 0 || !peers_acceptable(cfg, peers) {
        after == before && out == only(error_response(m.header(), CODE_BAD_REQUEST))
    } else if !live(before, tuple, now) {
        after == before && out == only(error_response(m.header(), CODE_ALLOCATION_MISMATCH))
    } else {
        &&& out == only(success_response(m.header(), Seq::empty()))
        &&& after.contains_key(tuple)
        &&& after == before.insert(tuple, after[tuple])
        &&& same_but_peers(before[tuple], after[tuple])
        &&& after[tuple].peers.channels() == before[tuple].peers.channels()
        &&& after[tuple].peers.permissions() == permit_all(
            before[tuple].peers.permissions(),
            peers,
            now,
            cfg.permission_lifetime,
        )
    }
}

fn all_peers_ok(cfg: &TableConfig, peers: &Vec<TransportAddr>) -> (ok: bool)
    ensures
        ok == peers_acceptable(*cfg, peers@),
{
    let mut i: usize = 0;
    while i < peers.len()
        invariant
            i <= peers@.len(),
            forall|k: int| 0 <= k < i ==> peer_acceptable(*cfg, #[trigger] peers@[k]),
        decreases peers@.len() - i,
    {
        if !peer_ok(cfg, &peers[i]) {
            return false;
        }
        i += 1;
    }
    true
}

/// Handles a CreatePermission request of an authenticated user.
pub fn handle_create_permission(
    table: &mut AllocationTable,
    tuple: ClientTuple,
    msg: &Message,
    now: u64,
) -> (out: Handled)
    requires
        old(table).wf(),
    ensures
        final(table).wf(),
        final(table).config() == old(table).config(),
        permission_handled(
            old(table).allocations(),
            final(table).allocations(),
            old(table).config(),
            tuple,
            msg@,
            now,
            out@,
        ),
{
    let h = msg.header();
    let cfg = table.settings();
    let peers = msg.peers();
    if peers.len() == 0 || !all_peers_ok(&cfg, &peers) {
        return Handled { response: error_message(&h, CODE_BAD_REQUEST), open: None, close: None };
    }
    if table.lookup(tuple, now).is_none() {
        return Handled {
            response: error_message(&h, CODE_ALLOCATION_MISMATCH),
            open: None,
            close: None,
        };
    }
    let ghost before = table.allocations();
    let ghost life = cfg.permission_lifetime;
    let mut i: usize = 0;
    proof {
        assert(peers@.take(0) =~= Seq::<TransportAddr>::empty());
        assert(before =~= before.insert(tuple, before[tuple]));
    }
    while i < peers.len()
        invariant
            i <= peers@.len(),
            table.wf(),
            table.config() == cfg,
            cfg == old(table).config(),
            life == cfg.permission_lifetime,
            before == old(table).allocations(),
            live(before, tuple, now),
            table.allocations().contains_key(tuple),
            table.allocations() == before.insert(tuple, table.allocations()[tuple]),
            same_but_peers(before[tuple], table.allocations()[tuple]),
            table.allocations()[tuple].peers.channels() == before[tuple].peers.channels(),
            table.allocations()[tuple].peers.permissions() == permit_all(
                before[tuple].peers.permissions(),
                peers@.take(i as int),
                now,
                life,
            ),
        decreases peers@.len() - i,
    {
        let ghost cur = table.allocations();
        let _ = table.create_permission(tuple, peers[i].ip, now);
        proof {
            let next = table.allocations();
            assert(peers@.take(i + 1).drop_last() =~= peers@.take(i as int));
            assert(peers@.take(i + 1).last() == peers@[i as int]);
            assert(next =~= before.insert(tuple, next[tuple]));
        }
        i += 1;
    }
    assert(peers@.take(i as int) =~= peers@);
    let attributes: Vec<Attribute> = Vec::new();
    assert(attrs_view(attributes@) =~= Seq::<AttributeSpec>::empty());
    Handled { response: respond(&h, Class::SuccessResponse, attributes), open: None, close: None }
}

} // verus!
