//! The allocation table: which client holds which relay address, and until
//! when.

use vstd::prelude::*;
use crate::addr::{ClientTuple, IpAddress, TransactionId, TransportAddr};
use crate::keyed::{
    as_map, distinct, lemma_absent, lemma_entry, lemma_present, lemma_push, lemma_remove,
    lemma_update, Keyed,
};
use crate::peers::{
    after_bind, after_permit, bind_outcome, deadline, live_channels, live_permissions, BindError,
    ChannelBinding, PeerStore, Permission,
};
use crate::wire::{bytes_eq, copy_range};

verus! {

/// What the table is set up with.
#[derive(Clone, Copy, Debug, PartialEq, Eq, Structural)]
pub struct TableConfig {
    /// The public address that relay addresses are made of.
    pub relay_ip: IpAddress,
    /// The lowest relay port.
    pub min_port: u16,
    /// The highest relay port.
    pub max_port: u16,
    /// The lifetime of an allocation whose client asks for none, in seconds.
    pub default_lifetime: u32,
    /// The longest lifetime that a client is given, in seconds.
    pub max_lifetime: u32,
    /// The most allocations that one user may hold at a time.
    pub user_quota: u32,
    /// How long a permission holds, in seconds.
    pub permission_lifetime: u64,
    /// How long a channel binding holds, in seconds.
    pub channel_lifetime: u64,
}

/// The record that binds a client to its relay address.
#[derive(Debug)]
pub struct Allocation {
    pub tuple: ClientTuple,
    pub relay: TransportAddr,
    /// The first instant at which the allocation no longer exists.
    pub expires: u64,
    pub username: Vec<u8>,
    pub realm: Vec<u8>,
    /// The transaction of the request that made the allocation.
    pub transaction_id: TransactionId,
    pub peers: PeerStore,
}

impl Keyed for Allocation {
    type Key = ClientTuple;

    open spec fn key(&self) -> ClientTuple {
        self.tuple
    }
}

/// Why no allocation was made.
#[derive(Clone, Copy, Debug, PartialEq, Eq, Structural)]
pub enum AllocError {
    /// The client holds an allocation that another request made.
    Mismatch,
    /// The user holds as many allocations as one user may.
    QuotaReached,
    /// Every relay port is taken.
    InsufficientCapacity,
}

/// No allocation exists for the client.
#[derive(Clone, Copy, Debug, PartialEq, Eq, Structural)]
pub struct NotFound;

/// What a client is given on a successful Allocate.
#[derive(Clone, Copy, Debug, PartialEq, Eq)]
pub struct Grant {
    pub relay: TransportAddr,
    /// Seconds until the allocation expires.
    pub lifetime: u32,
    /// Whether the allocation was made by this request, so that its relay
    /// endpoint is to be opened.
    pub created: bool,
    /// The relay address of an expired allocation of the same client that
    /// this one replaced and whose endpoint is to be closed.
    pub released: Option<TransportAddr>,
}

/// What a client is given on a successful Refresh.
#[derive(Clone, Copy, Debug, PartialEq, Eq)]
pub struct Refreshed {
    /// Seconds until the allocation expires; zero if it was deleted.
    pub lifetime: u32,
    /// The relay address of the allocation if it was deleted.
    pub released: Option<TransportAddr>,
}

/// Whether the client of `t` holds an allocation at `now`.
pub open spec fn live(m: Map<ClientTuple, Allocation>, t: ClientTuple, now: u64) -> bool {
    m.contains_key(t) && now < m[t].expires
}

/// The allocations that exist at `now`.
pub open spec fn live_allocations(m: Map<ClientTuple, Allocation>, now: u64) -> Map<
    ClientTuple,
    Allocation,
> {
    Map::new(|t: ClientTuple| live(m, t, now), |t: ClientTuple| m[t])
}

/// The lifetime given for a requested one: the default where none or zero
/// is asked for, and never more than the maximum.
pub open spec fn granted_lifetime(cfg: TableConfig, requested: Option<u32>) -> u32 {
    match requested {
        None => cfg.default_lifetime,
        Some(r) => if r == 0 {
            cfg.default_lifetime
        } else if r > cfg.max_lifetime {
            cfg.max_lifetime
        } else {
            r
        },
    }
}

/// Seconds from `now` to `expires`, as far as 32 bits hold them.
pub open spec fn remaining(expires: u64, now: u64) -> u32 {
    if expires <= now {
        0
    } else if expires - now > u32::MAX {
        u32::MAX
    } else {
        (expires - now) as u32
    }
}

/// Whether an allocation of a client other than `except` has relay port
/// `port`.
pub open spec fn port_taken(
    m: Map<ClientTuple, Allocation>,
    except: ClientTuple,
    port: u16,
) -> bool {
    exists|t: ClientTuple| t != except && #[trigger] m.contains_key(t) && m[t].relay.port == port
}

/// Whether `p` is the lowest relay port that no client other than `except`
/// holds.
pub open spec fn least_free_port(
    m: Map<ClientTuple, Allocation>,
    cfg: TableConfig,
    except: ClientTuple,
    p: u16,
) -> bool {
    &&& cfg.min_port <= p <= cfg.max_port
    &&& !port_taken(m, except, p)
    &&& forall|q: u16| cfg.min_port <= q < p ==> #[trigger] port_taken(m, except, q)
}

/// Whether clients other than `except` hold every relay port.
pub open spec fn ports_exhausted(
    m: Map<ClientTuple, Allocation>,
    cfg: TableConfig,
    except: ClientTuple,
) -> bool {
    forall|q: u16| cfg.min_port <= q <= cfg.max_port ==> #[trigger] port_taken(m, except, q)
}

/// Whether the client of `t`, another than `except`, holds an allocation at
/// `now` that `username` made.
pub open spec fn held_by(
    m: Map<ClientTuple, Allocation>,
    t: ClientTuple,
    username: Seq<u8>,
    except: ClientTuple,
    now: u64,
) -> bool {
    t != except && live(m, t, now) && m[t].username@ == username
}

/// Whether `clients` names, each once, clients other than `except` that
/// hold an allocation at `now` that `username` made.
pub open spec fn holders(
    m: Map<ClientTuple, Allocation>,
    clients: Seq<ClientTuple>,
    username: Seq<u8>,
    except: ClientTuple,
    now: u64,
) -> bool {
    &&& clients.no_duplicates()
    &&& forall|i: int|
        0 <= i < clients.len() ==> held_by(m, #[trigger] clients[i], username, except, now)
}

/// Whether `username` holds, with clients other than `except`, as many
/// allocations at `now` as one user may.
pub open spec fn quota_reached(
    m: Map<ClientTuple, Allocation>,
    cfg: TableConfig,
    username: Seq<u8>,
    except: ClientTuple,
    now: u64,
) -> bool {
    exists|clients: Seq<ClientTuple>|
        clients.len() == cfg.user_quota && #[trigger] holders(m, clients, username, except, now)
}

/// Whether one of the first `upto` entries is the allocation of the client
/// of `t`.
spec fn among(entries: Seq<Allocation>, upto: int, t: ClientTuple) -> bool {
    exists|k: int| 0 <= k < upto && (#[trigger] entries[k]).tuple == t
}

/// Whether `a` was made by the request of `username` with transaction `id`.
pub open spec fn identical(a: Allocation, username: Seq<u8>, id: TransactionId) -> bool {
    a.username@ == username && a.transaction_id == id
}

/// Whether `a` is a sound allocation for the client of `t`.
pub open spec fn allocation_wf(a: Allocation, t: ClientTuple, cfg: TableConfig) -> bool {
    &&& a.tuple == t
    &&& a.relay.ip == cfg.relay_ip
    &&& cfg.min_port <= a.relay.port <= cfg.max_port
    &&& a.peers.wf()
    &&& a.peers.permission_lifetime() == cfg.permission_lifetime
    &&& a.peers.channel_lifetime() == cfg.channel_lifetime
}

/// Every allocation is sound and filed under its own client, and no two
/// share a relay port.
pub open spec fn table_wf(m: Map<ClientTuple, Allocation>, cfg: TableConfig) -> bool {
    &&& forall|t: ClientTuple| #[trigger] m.contains_key(t) ==> allocation_wf(m[t], t, cfg)
    &&& forall|t: ClientTuple, u: ClientTuple|
        #[trigger] m.contains_key(t) && #[trigger] m.contains_key(u) && t != u
            ==> m[t].relay.port != m[u].relay.port
}

/// Whether `a` is a new allocation with the given particulars and no peers.
pub open spec fn fresh_allocation(
    a: Allocation,
    tuple: ClientTuple,
    relay: TransportAddr,
    expires: u64,
    username: Seq<u8>,
    realm: Seq<u8>,
    id: TransactionId,
) -> bool {
    &&& a.tuple == tuple
    &&& a.relay == relay
    &&& a.expires == expires
    &&& a.username@ == username
    &&& a.realm@ == realm
    &&& a.transaction_id == id
    &&& a.peers.permissions() == Map::<IpAddress, Permission>::empty()
    &&& a.peers.channels() == Map::<u16, ChannelBinding>::empty()
}

/// Whether `b` is `a` but for its deadline.
pub open spec fn same_but_expiry(a: Allocation, b: Allocation) -> bool {
    &&& b.tuple == a.tuple
    &&& b.relay == a.relay
    &&& b.username == a.username
    &&& b.realm == a.realm
    &&& b.transaction_id == a.transaction_id
    &&& b.peers == a.peers
}

/// Whether `b` is `a` but for its peers.
pub open spec fn same_but_peers(a: Allocation, b: Allocation) -> bool {
    &&& b.tuple == a.tuple
    &&& b.relay == a.relay
    &&& b.expires == a.expires
    &&& b.username == a.username
    &&& b.realm == a.realm
    &&& b.transaction_id == a.transaction_id
    &&& b.peers.permission_lifetime() == a.peers.permission_lifetime()
    &&& b.peers.channel_lifetime() == a.peers.channel_lifetime()
}

/// What an Allocate of the client of `tuple` at `now` comes to, from the
/// table `before` to the table `after`.
///
/// A client that holds an allocation gets it again if the same request made
/// it, and `Mismatch` otherwise; the table stays as it is. A client that
/// holds none is refused with `QuotaReached` where its user holds as many
/// allocations as one user may. Else it gets the lowest free relay port, in
/// place of an expired allocation of its own if there is one, or
/// `InsufficientCapacity` if no port is free.
pub open spec fn allocate_post(
    before: Map<ClientTuple, Allocation>,
    after: Map<ClientTuple, Allocation>,
    cfg: TableConfig,
    tuple: ClientTuple,
    username: Seq<u8>,
    realm: Seq<u8>,
    id: TransactionId,
    requested: Option<u32>,
    now: u64,
    r: Result<Grant, AllocError>,
) -> bool {
    if live(before, tuple, now) {
        &&& after == before
        &&& r == if identical(before[tuple], username, id) {
            Ok::<Grant, AllocError>(
                Grant {
                    relay: before[tuple].relay,
                    lifetime: remaining(before[tuple].expires, now),
                    created: false,
                    released: None,
                },
            )
        } else {
            Err::<Grant, AllocError>(AllocError::Mismatch)
        }
    } else if quota_reached(before, cfg, username, tuple, now) {
        &&& after == before
        &&& r == Err::<Grant, AllocError>(AllocError::QuotaReached)
    } else if ports_exhausted(before, cfg, tuple) {
        &&& after == before
        &&& r == Err::<Grant, AllocError>(AllocError::InsufficientCapacity)
    } else {
        match r {
            Err(_) => false,
            Ok(g) => {
                &&& g.relay.ip == cfg.relay_ip
                &&& least_free_port(before, cfg, tuple, g.relay.port)
                &&& g.lifetime == granted_lifetime(cfg, requested)
                &&& g.created
                &&& g.released == if before.contains_key(tuple) {
                    Some(before[tuple].relay)
                } else {
                    None
                }
                &&& after.contains_key(tuple)
                &&& after == before.insert(tuple, after[tuple])
                &&& fresh_allocation(
                    after[tuple],
                    tuple,
                    g.relay,
                    deadline(now, g.lifetime as u64),
                    username,
                    realm,
                    id,
                )
            },
        }
    }
}

/// What a Refresh of the client of `tuple` at `now` comes to.
///
/// Without an allocation it is `NotFound`. A requested lifetime of zero
/// deletes the allocation. Any other sets the deadline anew.
pub open spec fn refresh_post(
    before: Map<ClientTuple, Allocation>,
    after: Map<ClientTuple, Allocation>,
    cfg: TableConfig,
    tuple: ClientTuple,
    requested: Option<u32>,
    now: u64,
    r: Result<Refreshed, NotFound>,
) -> bool {
    if !live(before, tuple, now) {
        &&& after == before
        &&& r == Err::<Refreshed, NotFound>(NotFound)
    } else if requested == Some(0u32) {
        &&& after == before.remove(tuple)
        &&& r == Ok::<Refreshed, NotFound>(
            Refreshed { lifetime: 0, released: Some(before[tuple].relay) },
        )
    } else {
        &&& r == Ok::<Refreshed, NotFound>(
            Refreshed { lifetime: granted_lifetime(cfg, requested), released: None },
        )
        &&& after.contains_key(tuple)
        &&& after == before.insert(tuple, after[tuple])
        &&& same_but_expiry(before[tuple], after[tuple])
        &&& after[tuple].expires == deadline(now, granted_lifetime(cfg, requested) as u64)
    }
}

/// Why a channel could not be bound for a client.
#[derive(Clone, Copy, Debug, PartialEq, Eq)]
pub enum ChannelError {
    /// The client holds no allocation.
    NoAllocation,
    /// The allocation's bindings stand against it.
    Rejected(BindError),
}

/// Whether `removed` holds, once each, the allocations of `m` that have
/// expired at `now`.
pub open spec fn removed_exactly(
    removed: Seq<Allocation>,
    m: Map<ClientTuple, Allocation>,
    now: u64,
) -> bool {
    &&& distinct(removed)
    &&& forall|i: int|
        0 <= i < removed.len() ==> {
            let t = (#[trigger] removed[i]).tuple;
            m.contains_key(t) && m[t] == removed[i] && m[t].expires <= now
        }
    &&& forall|t: ClientTuple|
        #[trigger] m.contains_key(t) && m[t].expires <= now ==> exists|i: int|
            0 <= i < removed.len() && (#[trigger] removed[i]).tuple == t
}

/// What giving `ip` a permission with the client of `tuple` at `now` comes
/// to: `NotFound` without an allocation, and else the allocation's
/// permissions with `ip` added or refreshed.
pub open spec fn permit_post(
    before: Map<ClientTuple, Allocation>,
    after: Map<ClientTuple, Allocation>,
    cfg: TableConfig,
    tuple: ClientTuple,
    ip: IpAddress,
    now: u64,
    r: Result<(), NotFound>,
) -> bool {
    if !live(before, tuple, now) {
        &&& after == before
        &&& r == Err::<(), NotFound>(NotFound)
    } else {
        &&& r == Ok::<(), NotFound>(())
        &&& after.contains_key(tuple)
        &&& after == before.insert(tuple, after[tuple])
        &&& same_but_peers(before[tuple], after[tuple])
        &&& after[tuple].peers.channels() == before[tuple].peers.channels()
        &&& after[tuple].peers.permissions() == after_permit(
            before[tuple].peers.permissions(),
            ip,
            now,
            cfg.permission_lifetime,
        )
    }
}

/// What binding channel `number` to `peer` for the client of `tuple` at
/// `now` comes to: `NoAllocation` without an allocation, the reason where
/// the allocation's bindings stand against it, and else the binding made or
/// refreshed together with a permission for the peer's address.
pub open spec fn bind_post(
    before: Map<ClientTuple, Allocation>,
    after: Map<ClientTuple, Allocation>,
    cfg: TableConfig,
    tuple: ClientTuple,
    number: u16,
    peer: TransportAddr,
    now: u64,
    r: Result<(), ChannelError>,
) -> bool {
    if !live(before, tuple, now) {
        &&& after == before
        &&& r == Err::<(), ChannelError>(ChannelError::NoAllocation)
    } else {
        match bind_outcome(before[tuple].peers.channels(), number, peer, now) {
            Err(e) => {
                &&& after == before
                &&& r == Err::<(), ChannelError>(ChannelError::Rejected(e))
            },
            Ok(_) => {
                &&& r == Ok::<(), ChannelError>(())
                &&& after.contains_key(tuple)
                &&& after == before.insert(tuple, after[tuple])
                &&& same_but_peers(before[tuple], after[tuple])
                &&& after[tuple].peers.channels() == after_bind(
                    before[tuple].peers.channels(),
                    number,
                    peer,
                    now,
                    cfg.channel_lifetime,
                )
                &&& after[tuple].peers.permissions() == after_permit(
                    before[tuple].peers.permissions(),
                    peer.ip,
                    now,
                    cfg.permission_lifetime,
                )
            },
        }
    }
}

/// Whether `b` is `a` without the permissions and bindings that no longer
/// hold at `now`.
pub open spec fn peers_swept(a: Allocation, b: Allocation, now: u64) -> bool {
    &&& same_but_peers(a, b)
    &&& b.peers.permissions() == live_permissions(a.peers.permissions(), now)
    &&& b.peers.channels() == live_channels(a.peers.channels(), now)
}

/// Whether `after` holds the allocations of `before`, each without the
/// permissions and bindings that no longer hold at `now`.
pub open spec fn all_peers_swept(
    before: Map<ClientTuple, Allocation>,
    after: Map<ClientTuple, Allocation>,
    now: u64,
) -> bool {
    &&& forall|t: ClientTuple| after.contains_key(t) <==> before.contains_key(t)
    &&& forall|t: ClientTuple| #[trigger]
        before.contains_key(t) ==> peers_swept(before[t], after[t], now)
}

/// Whether the allocation of the client of `t` exists at `now` and has
/// relay port `port`.
pub open spec fn relays_on(
    m: Map<ClientTuple, Allocation>,
    t: ClientTuple,
    port: u16,
    now: u64,
) -> bool {
    live(m, t, now) && m[t].relay.port == port
}

/// A client that holds an allocation is never given a second one: the
/// request that made it gets the same relay address again, any other
/// request is refused, and either way the table stays as it is.
pub proof fn lemma_allocate_once(
    before: Map<ClientTuple, Allocation>,
    mid: Map<ClientTuple, Allocation>,
    after: Map<ClientTuple, Allocation>,
    cfg: TableConfig,
    tuple: ClientTuple,
    username: Seq<u8>,
    realm: Seq<u8>,
    id: TransactionId,
    requested: Option<u32>,
    t0: u64,
    first: Grant,
    username2: Seq<u8>,
    realm2: Seq<u8>,
    id2: TransactionId,
    requested2: Option<u32>,
    t1: u64,
    second: Result<Grant, AllocError>,
)
    requires
        !live(before, tuple, t0),
        allocate_post(
            before,
            mid,
            cfg,
            tuple,
            username,
            realm,
            id,
            requested,
            t0,
            Ok::<Grant, AllocError>(first),
        ),
        t0 <= t1 < deadline(t0, first.lifetime as u64),
        allocate_post(mid, after, cfg, tuple, username2, realm2, id2, requested2, t1, second),
    ensures
        after == mid,
        username2 == username && id2 == id ==> second is Ok && second->Ok_0.relay == first.relay,
        !(username2 == username && id2 == id) ==> second == Err::<Grant, AllocError>(
            AllocError::Mismatch,
        ),
{
}

/// The allocations by client.
#[derive(Debug)]
pub struct AllocationTable {
    config: TableConfig,
    entries: Vec<Allocation>,
}

impl AllocationTable {
    /// The allocations by client, expired ones included until the next
    /// sweep.
    pub closed spec fn allocations(&self) -> Map<ClientTuple, Allocation> {
        as_map(self.entries@)
    }

    /// What the table was set up with.
    pub closed spec fn config(&self) -> TableConfig {
        self.config
    }

    /// The invariant of the representation.
    pub closed spec fn inv(&self) -> bool {
        distinct(self.entries@)
    }

    /// The invariant of the table.
    pub open spec fn wf(&self) -> bool {
        self.inv() && table_wf(self.allocations(), self.config())
    }

    /// An empty table.
    pub fn new(config: TableConfig) -> (t: AllocationTable)
        ensures
            t.wf(),
            t.config() == config,
            t.allocations() == Map::<ClientTuple, Allocation>::empty(),
    {
        let t = AllocationTable { config, entries: Vec::new() };
        assert(t.allocations() =~= Map::<ClientTuple, Allocation>::empty());
        t
    }

    /// What the table was set up with.
    pub fn settings(&self) -> (c: TableConfig)
        ensures
            c == self.config(),
    {
        self.config
    }

    fn find(&self, tuple: ClientTuple) -> (r: Option<usize>)
        requires
            self.inv(),
        ensures
            match r {
                Some(i) => i < self.entries@.len() && self.entries@[i as int].tuple == tuple
                    && self.allocations().contains_key(tuple) && self.allocations()[tuple]
                    == self.entries@[i as int],
                None => !self.allocations().contains_key(tuple),
            },
    {
        let mut i: usize = 0;
        while i < self.entries.len()
            invariant
                self.inv(),
                i <= self.entries@.len(),
                forall|k: int| 0 <= k < i ==> (#[trigger] self.entries@[k]).key() != tuple,
            decreases self.entries@.len() - i,
        {
            if self.entries[i].tuple == tuple {
                proof {
                    lemma_entry(self.entries@, i as int);
                }
                return Some(i);
            }
            i += 1;
        }
        proof {
            lemma_absent(self.entries@, tuple);
        }
        None
    }

    fn port_in_use(&self, port: u16, except: ClientTuple) -> (r: bool)
        requires
            self.inv(),
        ensures
            r == port_taken(self.allocations(), except, port),
    {
        let mut i: usize = 0;
        while i < self.entries.len()
            invariant
                self.inv(),
                i <= self.entries@.len(),
                forall|k: int|
                    0 <= k < i ==> !((#[trigger] self.entries@[k]).tuple != except
                        && self.entries@[k].relay.port == port),
            decreases self.entries@.len() - i,
        {
            if self.entries[i].tuple != except && self.entries[i].relay.port == port {
                proof {
                    lemma_entry(self.entries@, i as int);
                }
                return true;
            }
            i += 1;
        }
        proof {
            if port_taken(self.allocations(), except, port) {
                let t = choose|t: ClientTuple|
                    t != except && #[trigger] self.allocations().contains_key(t)
                        && self.allocations()[t].relay.port == port;
                let k = lemma_present(self.entries@, t);
                assert(self.entries@[k].tuple != except);
            }
        }
        false
    }

    fn pick_port(&self, except: ClientTuple) -> (r: Option<u16>)
        requires
            self.inv(),
        ensures
            match r {
                Some(p) => least_free_port(self.allocations(), self.config(), except, p),
                None => ports_exhausted(self.allocations(), self.config(), except),
            },
    {
        if self.config.min_port > self.config.max_port {
            return None;
        }
        let mut p: u16 = self.config.min_port;
        loop
            invariant
                self.inv(),
                self.config.min_port <= p <= self.config.max_port,
                forall|q: u16|
                    self.config.min_port <= q < p ==> #[trigger] port_taken(
                        self.allocations(),
                        except,
                        q,
                    ),
            decreases self.config.max_port - p,
        {
            if !self.port_in_use(p, except) {
                return Some(p);
            }
            if p == self.config.max_port {
                return None;
            }
            p += 1;
        }
    }

    fn quota_full(&self, username: &[u8], except: ClientTuple, now: u64) -> (r: bool)
        requires
            self.inv(),
        ensures
            r == quota_reached(self.allocations(), self.config(), username@, except, now),
    {
        let quota: u32 = self.config.user_quota;
        let ghost m = self.allocations();
        let ghost mut found: Seq<ClientTuple> = Seq::empty();
        if quota == 0 {
            assert(holders(m, found, username@, except, now));
            return true;
        }
        let mut count: u32 = 0;
        let mut i: usize = 0;
        while i < self.entries.len()
            invariant
                i <= self.entries@.len(),
                self.inv(),
                m == self.allocations(),
                quota == self.config.user_quota,
                count == found.len(),
                count < quota,
                holders(m, found, username@, except, now),
                forall|j: int|
                    0 <= j < found.len() ==> among(self.entries@, i as int, #[trigger] found[j]),
                forall|k: int|
                    0 <= k < i && held_by(
                        m,
                        (#[trigger] self.entries@[k]).tuple,
                        username@,
                        except,
                        now,
                    ) ==> found.contains(self.entries@[k].tuple),
            decreases self.entries@.len() - i,
        {
            let e = &self.entries[i];
            proof {
                lemma_entry(self.entries@, i as int);
            }
            if e.tuple != except && now < e.expires && bytes_eq(e.username.as_slice(), username) {
                proof {
                    let before = found;
                    assert forall|j: int| 0 <= j < before.len() implies #[trigger] before[j]
                        != e.tuple by {
                        assert(among(self.entries@, i as int, before[j]));
                        let k = choose|k: int|
                            0 <= k < i && (#[trigger] self.entries@[k]).tuple == before[j];
                        assert(self.entries@[k].key() != self.entries@[i as int].key());
                    }
                    found = before.push(e.tuple);
                    assert(held_by(m, e.tuple, username@, except, now));
                    assert forall|x: int, y: int|
                        0 <= x < found.len() && 0 <= y < found.len() && x != y implies found[x]
                        != found[y] by {
                        if x < before.len() && y < before.len() {
                            assert(before[x] != before[y]);
                        } else if x < before.len() {
                            assert(before[x] != e.tuple);
                        } else {
                            assert(before[y] != e.tuple);
                        }
                    }
                    assert forall|j: int| 0 <= j < found.len() implies held_by(
                        m,
                        #[trigger] found[j],
                        username@,
                        except,
                        now,
                    ) by {
                        if j < before.len() {
                            assert(found[j] == before[j]);
                        }
                    }
                    assert(holders(m, found, username@, except, now));
                    assert forall|j: int| 0 <= j < found.len() implies among(
                        self.entries@,
                        i + 1,
                        #[trigger] found[j],
                    ) by {
                        if j < before.len() {
                            assert(among(self.entries@, i as int, before[j]));
                            let k = choose|k: int|
                                0 <= k < i && (#[trigger] self.entries@[k]).tuple == before[j];
                            assert(self.entries@[k].tuple == found[j]);
                        } else {
                            assert(self.entries@[i as int].tuple == found[j]);
                        }
                    }
                    assert forall|k: int|
                        0 <= k < i + 1 && held_by(
                            m,
                            (#[trigger] self.entries@[k]).tuple,
                            username@,
                            except,
                            now,
                        ) implies found.contains(self.entries@[k].tuple) by {
                        if k < i {
                            let j = choose|j: int|
                                0 <= j < before.len() && before[j] == self.entries@[k].tuple;
                            assert(found[j] == self.entries@[k].tuple);
                        } else {
                            assert(found[before.len() as int] == self.entries@[k].tuple);
                        }
                    }
                }
                count += 1;
                if count >= quota {
                    return true;
                }
            }
            i += 1;
        }
        proof {
            if quota_reached(m, self.config, username@, except, now) {
                let clients = choose|clients: Seq<ClientTuple>|
                    clients.len() == self.config.user_quota && #[trigger] holders(
                        m,
                        clients,
                        username@,
                        except,
                        now,
                    );
                assert forall|t: ClientTuple| clients.to_set().contains(t) implies found.to_set(
                ).contains(t) by {
                    let j = choose|j: int| 0 <= j < clients.len() && clients[j] == t;
                    assert(held_by(m, clients[j], username@, except, now));
                    let k = lemma_present(self.entries@, t);
                    assert(found.contains(self.entries@[k].tuple));
                }
                clients.unique_seq_to_set();
                found.unique_seq_to_set();
                vstd::seq_lib::seq_to_set_is_finite(found);
                vstd::set_lib::lemma_len_subset(clients.to_set(), found.to_set());
            }
        }
        false
    }

    /// The lifetime given for a requested one.
    pub fn grant_lifetime(&self, requested: Option<u32>) -> (r: u32)
        ensures
            r == granted_lifetime(self.config(), requested),
    {
        match requested {
            None => self.config.default_lifetime,
            Some(r) => if r == 0 {
                self.config.default_lifetime
            } else if r > self.config.max_lifetime {
                self.config.max_lifetime
            } else {
                r
            },
        }
    }

    /// Makes an allocation for the client of `tuple`, or finds the one that
    /// the same request made before.
    pub fn allocate(
        &mut self,
        tuple: ClientTuple,
        username: &[u8],
        realm: &[u8],
        id: TransactionId,
        requested: Option<u32>,
        now: u64,
    ) -> (r: Result<Grant, AllocError>)
        requires
            old(self).wf(),
        ensures
            final(self).wf(),
            final(self).config() == old(self).config(),
            allocate_post(
                old(self).allocations(),
                final(self).allocations(),
                old(self).config(),
                tuple,
                username@,
                realm@,
                id,
                requested,
                now,
                r,
            ),
    {
        let found = self.find(tuple);
        if let Some(i) = found {
            let a = &self.entries[i];
            if now < a.expires {
                if a.transaction_id == id && bytes_eq(a.username.as_slice(), username) {
                    return Ok(
                        Grant {
                            relay: a.relay,
                            lifetime: time_left(a.expires, now),
                            created: false,
                            released: None,
                        },
                    );
                } else {
                    return Err(AllocError::Mismatch);
                }
            }
        }
        if self.quota_full(username, tuple, now) {
            return Err(AllocError::QuotaReached);
        }
        let port = match self.pick_port(tuple) {
            None => {
                return Err(AllocError::InsufficientCapacity);
            },
            Some(p) => p,
        };
        let lifetime = self.grant_lifetime(requested);
        let relay = TransportAddr { ip: self.config.relay_ip, port };
        let a = Allocation {
            tuple,
            relay,
            expires: now.saturating_add(lifetime as u64),
            username: copy_range(username, 0, username.len()),
            realm: copy_range(realm, 0, realm.len()),
            transaction_id: id,
            peers: PeerStore::new(self.config.permission_lifetime, self.config.channel_lifetime),
        };
        assert(a.username@ =~= username@);
        assert(a.realm@ =~= realm@);
        let ghost before = self.allocations();
        let released = match found {
            Some(i) => {
                let old_relay = self.entries[i].relay;
                proof {
                    lemma_update(self.entries@, i as int, a);
                }
                self.entries.set(i, a);
                Some(old_relay)
            },
            None => {
                proof {
                    lemma_push(self.entries@, a);
                }
                self.entries.push(a);
                None
            },
        };
        proof {
            let after = self.allocations();
            assert(after == before.insert(tuple, a));
            assert forall|t: ClientTuple, u: ClientTuple|
                #[trigger] after.contains_key(t) && #[trigger] after.contains_key(u) && t
                    != u implies after[t].relay.port != after[u].relay.port by {
                if t == tuple {
                    assert(before.contains_key(u));
                } else if u == tuple {
                    assert(before.contains_key(t));
                }
            }
        }
        Ok(Grant { relay, lifetime, created: true, released })
    }

    /// Sets the deadline of the client's allocation anew, or deletes the
    /// allocation where the requested lifetime is zero.
    pub fn refresh(&mut self, tuple: ClientTuple, requested: Option<u32>, now: u64) -> (r: Result<
        Refreshed,
        NotFound,
    >)
        requires
            old(self).wf(),
        ensures
            final(self).wf(),
            final(self).config() == old(self).config(),
            refresh_post(
                old(self).allocations(),
                final(self).allocations(),
                old(self).config(),
                tuple,
                requested,
                now,
                r,
            ),
    {
        let i = match self.find(tuple) {
            None => {
                return Err(NotFound);
            },
            Some(i) => i,
        };
        if now >= self.entries[i].expires {
            return Err(NotFound);
        }
        let zero = match requested {
            Some(r) => r == 0,
            None => false,
        };
        if zero {
            proof {
                lemma_remove(self.entries@, i as int);
            }
            let a = self.entries.remove(i);
            Ok(Refreshed { lifetime: 0, released: Some(a.relay) })
        } else {
            let lifetime = self.grant_lifetime(requested);
            let ghost before = self.entries@;
            self.entries[i].expires = now.saturating_add(lifetime as u64);
            proof {
                assert(self.entries@ =~= before.update(i as int, self.entries@[i as int]));
                lemma_update(before, i as int, self.entries@[i as int]);
            }
            Ok(Refreshed { lifetime, released: None })
        }
    }

    /// The allocation that the client of `tuple` holds at `now`.
    pub fn lookup(&self, tuple: ClientTuple, now: u64) -> (r: Option<&Allocation>)
        requires
            self.wf(),
        ensures
            match r {
                Some(a) => live(self.allocations(), tuple, now) && *a == self.allocations()[tuple],
                None => !live(self.allocations(), tuple, now),
            },
    {
        match self.find(tuple) {
            Some(i) => {
                let a = &self.entries[i];
                if now < a.expires {
                    Some(a)
                } else {
                    None
                }
            },
            None => None,
        }
    }

    /// The allocation that exists at `now` and has relay port `port`. There
    /// is at most one.
    pub fn find_by_relay(&self, port: u16, now: u64) -> (r: Option<&Allocation>)
        requires
            self.wf(),
        ensures
            match r {
                Some(a) => relays_on(self.allocations(), a.tuple, port, now)
                    && *a == self.allocations()[a.tuple],
                None => forall|t: ClientTuple| !relays_on(self.allocations(), t, port, now),
            },
    {
        let mut i: usize = 0;
        while i < self.entries.len()
            invariant
                self.wf(),
                i <= self.entries@.len(),
                forall|k: int|
                    0 <= k < i ==> !((#[trigger] self.entries@[k]).relay.port == port && now
                        < self.entries@[k].expires),
            decreases self.entries@.len() - i,
        {
            let a = &self.entries[i];
            if a.relay.port == port && now < a.expires {
                proof {
                    lemma_entry(self.entries@, i as int);
                }
                return Some(a);
            }
            i += 1;
        }
        proof {
            assert forall|t: ClientTuple| !relays_on(self.allocations(), t, port, now) by {
                if self.allocations().contains_key(t) {
                    let k = lemma_present(self.entries@, t);
                    assert(!(self.entries@[k].relay.port == port && now
                        < self.entries@[k].expires));
                }
            }
        }
        None
    }

    /// Takes out the allocations that have expired at `now` and hands them
    /// back, so that their relay endpoints can be closed.
    pub fn expire_sweep(&mut self, now: u64) -> (removed: Vec<Allocation>)
        requires
            old(self).wf(),
        ensures
            final(self).wf(),
            final(self).config() == old(self).config(),
            final(self).allocations() == live_allocations(old(self).allocations(), now),
            removed_exactly(removed@, old(self).allocations(), now),
    {
        let mut removed: Vec<Allocation> = Vec::new();
        let mut i: usize = 0;
        let ghost m = self.allocations();
        while i < self.entries.len()
            invariant
                i <= self.entries@.len(),
                self.inv(),
                self.config == old(self).config,
                m == old(self).allocations(),
                table_wf(m, self.config),
                distinct(removed@),
                forall|k: int| 0 <= k < i ==> now < (#[trigger] self.entries@[k]).expires,
                forall|t: ClientTuple| #[trigger]
                    self.allocations().contains_key(t) ==> m.contains_key(t) && m[t]
                        == self.allocations()[t],
                forall|t: ClientTuple| #[trigger]
                    m.contains_key(t) ==> self.allocations().contains_key(t) || exists|j: int|
                        0 <= j < removed@.len() && (#[trigger] removed@[j]).tuple == t,
                forall|j: int|
                    0 <= j < removed@.len() ==> {
                        let t = (#[trigger] removed@[j]).tuple;
                        m.contains_key(t) && m[t] == removed@[j] && m[t].expires <= now
                            && !self.allocations().contains_key(t)
                    },
            decreases self.entries@.len() - i,
        {
            if self.entries[i].expires <= now {
                let ghost cur = self.allocations();
                let ghost before = removed@;
                proof {
                    lemma_remove(self.entries@, i as int);
                    lemma_entry(self.entries@, i as int);
                }
                let a = self.entries.remove(i);
                removed.push(a);
                proof {
                    let n = before.len() as int;
                    assert(removed@[n] == a);
                    assert(self.allocations() == cur.remove(a.tuple));
                    assert forall|t: ClientTuple| #[trigger] m.contains_key(t) implies
                        self.allocations().contains_key(t) || exists|j: int|
                            0 <= j < removed@.len() && (#[trigger] removed@[j]).tuple == t by {
                        if cur.contains_key(t) {
                            if t == a.tuple {
                                assert(removed@[n].tuple == t);
                            }
                        } else {
                            let j = choose|j: int|
                                0 <= j < before.len() && (#[trigger] before[j]).tuple == t;
                            assert(removed@[j].tuple == t);
                        }
                    }
                    assert forall|x: int, y: int|
                        0 <= x < removed@.len() && 0 <= y < removed@.len() && x
                            != y implies (#[trigger] removed@[x]).key() != (
                    #[trigger] removed@[y]).key() by {
                        if x < n && y < n {
                            assert(before[x].key() != before[y].key());
                        } else if x < n {
                            assert(!cur.contains_key(before[x].tuple));
                        } else {
                            assert(!cur.contains_key(before[y].tuple));
                        }
                    }
                }
            } else {
                i += 1;
            }
        }
        proof {
            let cur = self.allocations();
            assert forall|t: ClientTuple| cur.contains_key(t) implies now < cur[t].expires by {
                let k = lemma_present(self.entries@, t);
            }
            assert forall|t: ClientTuple| live(m, t, now) implies cur.contains_key(t) by {
                if !cur.contains_key(t) {
                    let j = choose|j: int|
                        0 <= j < removed@.len() && (#[trigger] removed@[j]).tuple == t;
                    assert(m[t] == removed@[j]);
                }
            }
            assert(cur =~= live_allocations(m, now));
        }
        removed
    }

    /// Removes from every allocation the permissions and bindings that no
    /// longer hold at `now`.
    pub fn sweep_peers(&mut self, now: u64)
        requires
            old(self).wf(),
        ensures
            final(self).wf(),
            final(self).config() == old(self).config(),
            all_peers_swept(old(self).allocations(), final(self).allocations(), now),
    {
        let ghost m = self.allocations();
        let ghost first = self.entries@;
        let mut i: usize = 0;
        while i < self.entries.len()
            invariant
                i <= self.entries@.len(),
                self.wf(),
                self.config == old(self).config,
                m == old(self).allocations(),
                first == old(self).entries@,
                distinct(first),
                m == as_map(first),
                self.entries@.len() == first.len(),
                forall|k: int|
                    0 <= k < first.len() ==> (#[trigger] self.entries@[k]).tuple == first[k].tuple,
                forall|k: int|
                    0 <= k < i ==> peers_swept(first[k], #[trigger] self.entries@[k], now),
                forall|k: int| i <= k < first.len() ==> #[trigger] self.entries@[k] == first[k],
            decreases self.entries@.len() - i,
        {
            let ghost before = self.entries@;
            let ghost cur = self.allocations();
            proof {
                lemma_entry(before, i as int);
            }
            self.entries[i].peers.sweep(now);
            proof {
                let e = self.entries@[i as int];
                assert(self.entries@ =~= before.update(i as int, e));
                lemma_update(before, i as int, e);
                lemma_table_wf_insert(cur, self.config, e.tuple, e);
            }
            i += 1;
        }
        proof {
            let after = self.allocations();
            assert forall|t: ClientTuple| after.contains_key(t) <==> m.contains_key(t) by {
                if after.contains_key(t) {
                    let k = lemma_present(self.entries@, t);
                    lemma_entry(first, k);
                }
                if m.contains_key(t) {
                    let k = lemma_present(first, t);
                    lemma_entry(self.entries@, k);
                }
            }
            assert forall|t: ClientTuple| #[trigger] m.contains_key(t) implies peers_swept(
                m[t],
                after[t],
                now,
            ) by {
                let k = lemma_present(first, t);
                lemma_entry(self.entries@, k);
            }
        }
    }

    /// Takes out the allocation of the client of `tuple`, whatever its
    /// deadline, and hands it back.
    pub fn remove(&mut self, tuple: ClientTuple) -> (r: Option<Allocation>)
        requires
            old(self).wf(),
        ensures
            final(self).wf(),
            final(self).config() == old(self).config(),
            final(self).allocations() == old(self).allocations().remove(tuple),
            r == if old(self).allocations().contains_key(tuple) {
                Some(old(self).allocations()[tuple])
            } else {
                None
            },
    {
        match self.find(tuple) {
            Some(i) => {
                proof {
                    lemma_remove(self.entries@, i as int);
                }
                Some(self.entries.remove(i))
            },
            None => {
                assert(self.allocations().remove(tuple) =~= self.allocations());
                None
            },
        }
    }

    /// Gives `ip` a permission with the client's allocation, or refreshes
    /// the one it has.
    pub fn create_permission(&mut self, tuple: ClientTuple, ip: IpAddress, now: u64) -> (r: Result<
        (),
        NotFound,
    >)
        requires
            old(self).wf(),
        ensures
            final(self).wf(),
            final(self).config() == old(self).config(),
            permit_post(
                old(self).allocations(),
                final(self).allocations(),
                old(self).config(),
                tuple,
                ip,
                now,
                r,
            ),
    {
        let i = match self.find(tuple) {
            None => {
                return Err(NotFound);
            },
            Some(i) => i,
        };
        if now >= self.entries[i].expires {
            return Err(NotFound);
        }
        let ghost before = self.entries@;
        let ghost m = self.allocations();
        self.entries[i].peers.create_permission(ip, now);
        proof {
            assert(self.entries@ =~= before.update(i as int, self.entries@[i as int]));
            lemma_update(before, i as int, self.entries@[i as int]);
            lemma_table_wf_insert(m, self.config, tuple, self.entries@[i as int]);
        }
        Ok(())
    }

    /// Binds a channel to a peer with the client's allocation, or refreshes
    /// that binding.
    pub fn bind_channel(
        &mut self,
        tuple: ClientTuple,
        number: u16,
        peer: TransportAddr,
        now: u64,
    ) -> (r: Result<(), ChannelError>)
        requires
            old(self).wf(),
        ensures
            final(self).wf(),
            final(self).config() == old(self).config(),
            bind_post(
                old(self).allocations(),
                final(self).allocations(),
                old(self).config(),
                tuple,
                number,
                peer,
                now,
                r,
            ),
    {
        let i = match self.find(tuple) {
            None => {
                return Err(ChannelError::NoAllocation);
            },
            Some(i) => i,
        };
        if now >= self.entries[i].expires {
            return Err(ChannelError::NoAllocation);
        }
        let ghost before = self.entries@;
        let ghost m = self.allocations();
        let r = self.entries[i].peers.bind_channel(number, peer, now);
        proof {
            assert(self.entries@ =~= before.update(i as int, self.entries@[i as int]));
            if r is Ok {
                lemma_update(before, i as int, self.entries@[i as int]);
                lemma_table_wf_insert(m, self.config, tuple, self.entries@[i as int]);
            } else {
                assert(self.entries@[i as int] == before[i as int]);
                assert(self.entries@ =~= before);
            }
        }
        match r {
            Ok(_) => Ok(()),
            Err(e) => Err(ChannelError::Rejected(e)),
        }
    }
}

/// Seconds from `now` to `expires`, as far as 32 bits hold them.
pub fn time_left(expires: u64, now: u64) -> (r: u32)
    ensures
        r == remaining(expires, now),
{
    if expires <= now {
        0
    } else if expires - now > 0xFFFF_FFFF {
        0xFFFF_FFFF
    } else {
        (expires - now) as u32
    }
}

/// Putting a sound allocation with the same relay address in the place of
/// the client's own keeps the table sound.
proof fn lemma_table_wf_insert(
    m: Map<ClientTuple, Allocation>,
    cfg: TableConfig,
    tuple: ClientTuple,
    a: Allocation,
)
    requires
        table_wf(m, cfg),
        m.contains_key(tuple),
        allocation_wf(a, tuple, cfg),
        a.relay == m[tuple].relay,
    ensures
        table_wf(m.insert(tuple, a), cfg),
{
    let after = m.insert(tuple, a);
    assert forall|t: ClientTuple, u: ClientTuple|
        #[trigger] after.contains_key(t) && #[trigger] after.contains_key(u) && t
            != u implies after[t].relay.port != after[u].relay.port by {
        assert(m.contains_key(t) && m.contains_key(u));
    }
}

} // verus!
