//! The peers of one allocation: which peer addresses may exchange data with
//! the client, and which channel numbers stand for which peers.

use vstd::prelude::*;
use crate::addr::{IpAddress, TransportAddr};
use crate::chandata::{channel_number_valid, is_channel_number};
use crate::keyed::{
    as_map, distinct, lemma_absent, lemma_entry, lemma_present, lemma_push, lemma_remove,
    lemma_update, Keyed,
};

verus! {

/// Leave for a peer IP address to exchange data through the relay.
#[derive(Clone, Copy, Debug, PartialEq, Eq, Structural)]
pub struct Permission {
    pub ip: IpAddress,
    /// The first instant at which the permission no longer holds.
    pub expires: u64,
}

/// A channel number standing for a peer address.
#[derive(Clone, Copy, Debug, PartialEq, Eq, Structural)]
pub struct ChannelBinding {
    pub number: u16,
    pub peer: TransportAddr,
    /// The first instant at which the binding no longer holds.
    pub expires: u64,
}

/// Why a channel could not be bound.
#[derive(Clone, Copy, Debug, PartialEq, Eq, Structural)]
pub enum BindError {
    /// The number is outside the range of channel numbers.
    InvalidNumber,
    /// The channel is bound to another peer.
    ChannelInUse,
    /// The peer is bound to another channel.
    PeerAlreadyBound,
}

impl Keyed for Permission {
    type Key = IpAddress;

    open spec fn key(&self) -> IpAddress {
        self.ip
    }
}

impl Keyed for ChannelBinding {
    type Key = u16;

    open spec fn key(&self) -> u16 {
        self.number
    }
}

/// The instant `lifetime` after `now`, or the last instant of the clock if
/// that is sooner.
pub open spec fn deadline(now: u64, lifetime: u64) -> u64 {
    if now + lifetime > u64::MAX {
        u64::MAX
    } else {
        (now + lifetime) as u64
    }
}

/// Whether `ip` holds a permission at `now`.
pub open spec fn permitted(m: Map<IpAddress, Permission>, ip: IpAddress, now: u64) -> bool {
    m.contains_key(ip) && now < m[ip].expires
}

/// The permissions that hold at `now`.
pub open spec fn live_permissions(m: Map<IpAddress, Permission>, now: u64) -> Map<
    IpAddress,
    Permission,
> {
    Map::new(|ip: IpAddress| permitted(m, ip, now), |ip: IpAddress| m[ip])
}

/// Whether channel `c` is bound at `now`.
pub open spec fn bound_at(m: Map<u16, ChannelBinding>, c: u16, now: u64) -> bool {
    m.contains_key(c) && now < m[c].expires
}

/// The bindings that hold at `now`.
pub open spec fn live_channels(m: Map<u16, ChannelBinding>, now: u64) -> Map<u16, ChannelBinding> {
    Map::new(|c: u16| bound_at(m, c, now), |c: u16| m[c])
}

/// Whether channel `c` is bound to a peer other than `peer` at `now`.
pub open spec fn channel_in_use(
    m: Map<u16, ChannelBinding>,
    c: u16,
    peer: TransportAddr,
    now: u64,
) -> bool {
    bound_at(m, c, now) && m[c].peer != peer
}

/// Whether channel `d` is bound to `peer` at `now`.
pub open spec fn binds(m: Map<u16, ChannelBinding>, d: u16, peer: TransportAddr, now: u64) -> bool {
    bound_at(m, d, now) && m[d].peer == peer
}

/// Whether `peer` is bound to a channel other than `c` at `now`.
pub open spec fn peer_bound_elsewhere(
    m: Map<u16, ChannelBinding>,
    c: u16,
    peer: TransportAddr,
    now: u64,
) -> bool {
    exists|d: u16| d != c && #[trigger] binds(m, d, peer, now)
}

/// What binding channel `c` to `peer` at `now` comes to.
pub open spec fn bind_outcome(
    m: Map<u16, ChannelBinding>,
    c: u16,
    peer: TransportAddr,
    now: u64,
) -> Result<(), BindError> {
    if !is_channel_number(c) {
        Err(BindError::InvalidNumber)
    } else if channel_in_use(m, c, peer, now) {
        Err(BindError::ChannelInUse)
    } else if peer_bound_elsewhere(m, c, peer, now) {
        Err(BindError::PeerAlreadyBound)
    } else {
        Ok(())
    }
}

/// The bindings after channel `c` was bound to `peer` at `now`: those that
/// hold at `now`, with `c` bound to `peer` until `lifetime` has passed.
pub open spec fn after_bind(
    m: Map<u16, ChannelBinding>,
    c: u16,
    peer: TransportAddr,
    now: u64,
    lifetime: u64,
) -> Map<u16, ChannelBinding> {
    live_channels(m, now).insert(
        c,
        ChannelBinding { number: c, peer, expires: deadline(now, lifetime) },
    )
}

/// The permissions after `ip` was given one at `now`.
pub open spec fn after_permit(
    m: Map<IpAddress, Permission>,
    ip: IpAddress,
    now: u64,
    lifetime: u64,
) -> Map<IpAddress, Permission> {
    m.insert(ip, Permission { ip, expires: deadline(now, lifetime) })
}

/// Every binding is filed under its own number, which is a channel number,
/// and no two channels are bound to one peer.
pub open spec fn channels_wf(m: Map<u16, ChannelBinding>) -> bool {
    &&& forall|c: u16| #[trigger] m.contains_key(c) ==> m[c].number == c && is_channel_number(c)
    &&& forall|c: u16, d: u16|
        #[trigger] m.contains_key(c) && #[trigger] m.contains_key(d) && c != d ==> m[c].peer
            != m[d].peer
}

/// Every permission is filed under its own address.
pub open spec fn permissions_wf(m: Map<IpAddress, Permission>) -> bool {
    forall|ip: IpAddress| #[trigger] m.contains_key(ip) ==> m[ip].ip == ip
}

/// A permission that holds at some instant holds at every earlier one, and
/// one that does not hold is not brought back by the passing of time.
pub proof fn lemma_permission_expiry(
    m: Map<IpAddress, Permission>,
    ip: IpAddress,
    earlier: u64,
    later: u64,
)
    requires
        earlier <= later,
    ensures
        permitted(m, ip, later) ==> permitted(m, ip, earlier),
        !permitted(m, ip, earlier) ==> !permitted(m, ip, later),
{
}

/// A permission given at `t0` holds at every instant before its deadline
/// and at none from the deadline on.
pub proof fn lemma_permission_deadline(
    m: Map<IpAddress, Permission>,
    ip: IpAddress,
    t0: u64,
    lifetime: u64,
    now: u64,
)
    ensures
        now < deadline(t0, lifetime) ==> permitted(after_permit(m, ip, t0, lifetime), ip, now),
        now >= deadline(t0, lifetime) ==> !permitted(after_permit(m, ip, t0, lifetime), ip, now),
{
}

/// A binding made at `t0` is found at every instant before its deadline and
/// at none from the deadline on.
pub proof fn lemma_binding_deadline(
    m: Map<u16, ChannelBinding>,
    c: u16,
    peer: TransportAddr,
    t0: u64,
    lifetime: u64,
    now: u64,
)
    ensures
        now < deadline(t0, lifetime) ==> binds(after_bind(m, c, peer, t0, lifetime), c, peer, now),
        now >= deadline(t0, lifetime) ==> !bound_at(after_bind(m, c, peer, t0, lifetime), c, now),
{
}

/// While channel `c` is bound to `peer`, binding it to another peer fails
/// with `ChannelInUse`, and binding it to `peer` again succeeds and leaves
/// it bound at least as long as before.
pub proof fn lemma_rebinding(
    m: Map<u16, ChannelBinding>,
    c: u16,
    peer: TransportAddr,
    other: TransportAddr,
    t0: u64,
    t1: u64,
    lifetime: u64,
)
    requires
        channels_wf(m),
        bind_outcome(m, c, peer, t0) == Ok::<(), BindError>(()),
        t0 <= t1 < deadline(t0, lifetime),
        other != peer,
    ensures
        ({
            let first = after_bind(m, c, peer, t0, lifetime);
            let second = after_bind(first, c, peer, t1, lifetime);
            &&& channels_wf(first)
            &&& bind_outcome(first, c, other, t1) == Err::<(), BindError>(BindError::ChannelInUse)
            &&& bind_outcome(first, c, peer, t1) == Ok::<(), BindError>(())
            &&& second[c].peer == peer
            &&& second[c].expires >= first[c].expires
        }),
{
    let first = after_bind(m, c, peer, t0, lifetime);
    lemma_after_bind_wf(m, c, peer, t0, lifetime);
    assert(!peer_bound_elsewhere(first, c, peer, t1)) by {
        if peer_bound_elsewhere(first, c, peer, t1) {
            let d = choose|d: u16| d != c && #[trigger] binds(first, d, peer, t1);
            assert(first.contains_key(d) && first.contains_key(c));
        }
    }
}

/// Binding where nothing stands against it keeps the bindings well formed.
pub proof fn lemma_after_bind_wf(
    m: Map<u16, ChannelBinding>,
    c: u16,
    peer: TransportAddr,
    now: u64,
    lifetime: u64,
)
    requires
        channels_wf(m),
        bind_outcome(m, c, peer, now) == Ok::<(), BindError>(()),
    ensures
        channels_wf(after_bind(m, c, peer, now, lifetime)),
{
    let after = after_bind(m, c, peer, now, lifetime);
    assert forall|a: u16, b: u16|
        #[trigger] after.contains_key(a) && #[trigger] after.contains_key(b) && a
            != b implies after[a].peer != after[b].peer by {
        if a == c {
            assert(bound_at(m, b, now));
            if m[b].peer == peer {
                assert(binds(m, b, peer, now));
            }
        } else if b == c {
            assert(bound_at(m, a, now));
            if m[a].peer == peer {
                assert(binds(m, a, peer, now));
            }
        } else {
            assert(m.contains_key(a) && m.contains_key(b));
        }
    }
    assert forall|a: u16| #[trigger] after.contains_key(a) implies after[a].number == a
        && is_channel_number(a) by {
        if a != c {
            assert(m.contains_key(a));
        }
    }
}

/// The permissions and channel bindings of one allocation.
#[derive(Debug)]
pub struct PeerStore {
    permissions: Vec<Permission>,
    channels: Vec<ChannelBinding>,
    permission_lifetime: u64,
    channel_lifetime: u64,
}

impl PeerStore {
    /// The permissions by peer address, expired ones included until the
    /// next sweep.
    pub closed spec fn permissions(&self) -> Map<IpAddress, Permission> {
        as_map(self.permissions@)
    }

    /// The bindings by channel number, expired ones included until the next
    /// sweep.
    pub closed spec fn channels(&self) -> Map<u16, ChannelBinding> {
        as_map(self.channels@)
    }

    /// How long a permission holds after it was given or refreshed.
    pub closed spec fn permission_lifetime(&self) -> u64 {
        self.permission_lifetime
    }

    /// How long a binding holds after it was made or refreshed.
    pub closed spec fn channel_lifetime(&self) -> u64 {
        self.channel_lifetime
    }

    /// The invariant of the representation.
    pub closed spec fn inv(&self) -> bool {
        distinct(self.permissions@) && distinct(self.channels@)
    }

    /// The invariant of the store.
    pub open spec fn wf(&self) -> bool {
        &&& self.inv()
        &&& permissions_wf(self.permissions())
        &&& channels_wf(self.channels())
    }

    /// An empty store with the given lifetimes.
    pub fn new(permission_lifetime: u64, channel_lifetime: u64) -> (s: PeerStore)
        ensures
            s.wf(),
            s.permissions() == Map::<IpAddress, Permission>::empty(),
            s.channels() == Map::<u16, ChannelBinding>::empty(),
            s.permission_lifetime() == permission_lifetime,
            s.channel_lifetime() == channel_lifetime,
    {
        let s = PeerStore {
            permissions: Vec::new(),
            channels: Vec::new(),
            permission_lifetime,
            channel_lifetime,
        };
        assert(s.permissions() =~= Map::<IpAddress, Permission>::empty());
        assert(s.channels() =~= Map::<u16, ChannelBinding>::empty());
        s
    }

    fn find_permission(&self, ip: IpAddress) -> (r: Option<usize>)
        requires
            self.inv(),
        ensures
            match r {
                Some(i) => i < self.permissions@.len() && self.permissions@[i as int].ip == ip
                    && self.permissions().contains_key(ip) && self.permissions()[ip]
                    == self.permissions@[i as int],
                None => !self.permissions().contains_key(ip),
            },
    {
        let mut i: usize = 0;
        while i < self.permissions.len()
            invariant
                self.inv(),
                i <= self.permissions@.len(),
                forall|k: int| 0 <= k < i ==> (#[trigger] self.permissions@[k]).key() != ip,
            decreases self.permissions@.len() - i,
        {
            if self.permissions[i].ip == ip {
                proof {
                    lemma_entry(self.permissions@, i as int);
                }
                return Some(i);
            }
            i += 1;
        }
        proof {
            lemma_absent(self.permissions@, ip);
        }
        None
    }

    fn find_channel(&self, number: u16) -> (r: Option<usize>)
        requires
            self.inv(),
        ensures
            match r {
                Some(i) => i < self.channels@.len() && self.channels@[i as int].number == number
                    && self.channels().contains_key(number) && self.channels()[number]
                    == self.channels@[i as int],
                None => !self.channels().contains_key(number),
            },
    {
        let mut i: usize = 0;
        while i < self.channels.len()
            invariant
                self.inv(),
                i <= self.channels@.len(),
                forall|k: int| 0 <= k < i ==> (#[trigger] self.channels@[k]).key() != number,
            decreases self.channels@.len() - i,
        {
            if self.channels[i].number == number {
                proof {
                    lemma_entry(self.channels@, i as int);
                }
                return Some(i);
            }
            i += 1;
        }
        proof {
            lemma_absent(self.channels@, number);
        }
        None
    }

    /// Whether `ip` holds a permission at `now`.
    pub fn has_permission(&self, ip: IpAddress, now: u64) -> (r: bool)
        requires
            self.wf(),
        ensures
            r == permitted(self.permissions(), ip, now),
    {
        match self.find_permission(ip) {
            Some(i) => now < self.permissions[i].expires,
            None => false,
        }
    }

    /// Gives `ip` a permission, or refreshes the one it has, to hold from
    /// `now` for the permission lifetime.
    pub fn create_permission(&mut self, ip: IpAddress, now: u64)
        requires
            old(self).wf(),
        ensures
            final(self).wf(),
            final(self).permissions() == after_permit(
                old(self).permissions(),
                ip,
                now,
                old(self).permission_lifetime(),
            ),
            final(self).channels() == old(self).channels(),
            final(self).permission_lifetime() == old(self).permission_lifetime(),
            final(self).channel_lifetime() == old(self).channel_lifetime(),
    {
        let p = Permission { ip, expires: now.saturating_add(self.permission_lifetime) };
        match self.find_permission(ip) {
            Some(i) => {
                proof {
                    lemma_update(self.permissions@, i as int, p);
                }
                self.permissions.set(i, p);
            },
            None => {
                proof {
                    lemma_push(self.permissions@, p);
                }
                self.permissions.push(p);
            },
        }
    }

    /// The peer that channel `number` is bound to at `now`.
    pub fn peer_for(&self, number: u16, now: u64) -> (r: Option<TransportAddr>)
        requires
            self.wf(),
        ensures
            r == if bound_at(self.channels(), number, now) {
                Some(self.channels()[number].peer)
            } else {
                None
            },
    {
        match self.find_channel(number) {
            Some(i) => {
                let b = self.channels[i];
                if now < b.expires {
                    Some(b.peer)
                } else {
                    None
                }
            },
            None => None,
        }
    }

    /// The channel that is bound to `peer` at `now`. There is at most one.
    pub fn channel_for(&self, peer: TransportAddr, now: u64) -> (r: Option<u16>)
        requires
            self.wf(),
        ensures
            match r {
                Some(c) => binds(self.channels(), c, peer, now),
                None => forall|c: u16| !binds(self.channels(), c, peer, now),
            },
    {
        let mut i: usize = 0;
        while i < self.channels.len()
            invariant
                self.wf(),
                i <= self.channels@.len(),
                forall|k: int|
                    0 <= k < i ==> !((#[trigger] self.channels@[k]).peer == peer && now
                        < self.channels@[k].expires),
            decreases self.channels@.len() - i,
        {
            let b = self.channels[i];
            if b.peer == peer && now < b.expires {
                proof {
                    lemma_entry(self.channels@, i as int);
                }
                return Some(b.number);
            }
            i += 1;
        }
        proof {
            assert forall|c: u16| !binds(self.channels(), c, peer, now) by {
                if self.channels().contains_key(c) {
                    let k = lemma_present(self.channels@, c);
                    assert(self.channels@[k].peer != peer || now >= self.channels@[k].expires);
                }
            }
        }
        None
    }

    fn sweep_permissions(&mut self, now: u64)
        requires
            old(self).wf(),
        ensures
            final(self).wf(),
            final(self).permissions() == live_permissions(old(self).permissions(), now),
            final(self).channels() == old(self).channels(),
            final(self).permission_lifetime() == old(self).permission_lifetime(),
            final(self).channel_lifetime() == old(self).channel_lifetime(),
    {
        let mut i: usize = 0;
        while i < self.permissions.len()
            invariant
                i <= self.permissions@.len(),
                distinct(self.permissions@),
                self.channels == old(self).channels,
                self.permission_lifetime == old(self).permission_lifetime,
                self.channel_lifetime == old(self).channel_lifetime,
                forall|k: int| 0 <= k < i ==> now < (#[trigger] self.permissions@[k]).expires,
                live_permissions(as_map(self.permissions@), now) == live_permissions(
                    as_map(old(self).permissions@),
                    now,
                ),
            decreases self.permissions@.len() - i,
        {
            if self.permissions[i].expires <= now {
                proof {
                    lemma_remove(self.permissions@, i as int);
                    lemma_entry(self.permissions@, i as int);
                    assert(live_permissions(as_map(self.permissions@.remove(i as int)), now)
                        =~= live_permissions(as_map(self.permissions@), now));
                }
                self.permissions.remove(i);
            } else {
                i += 1;
            }
        }
        proof {
            let m = as_map(self.permissions@);
            assert forall|ip: IpAddress| m.contains_key(ip) implies permitted(m, ip, now) by {
                let k = lemma_present(self.permissions@, ip);
            }
            assert(m =~= live_permissions(m, now));
        }
    }

    fn sweep_channels(&mut self, now: u64)
        requires
            old(self).wf(),
        ensures
            final(self).wf(),
            final(self).channels() == live_channels(old(self).channels(), now),
            final(self).permissions() == old(self).permissions(),
            final(self).permission_lifetime() == old(self).permission_lifetime(),
            final(self).channel_lifetime() == old(self).channel_lifetime(),
    {
        let mut i: usize = 0;
        while i < self.channels.len()
            invariant
                i <= self.channels@.len(),
                distinct(self.channels@),
                self.permissions == old(self).permissions,
                self.permission_lifetime == old(self).permission_lifetime,
                self.channel_lifetime == old(self).channel_lifetime,
                forall|k: int| 0 <= k < i ==> now < (#[trigger] self.channels@[k]).expires,
                live_channels(as_map(self.channels@), now) == live_channels(
                    as_map(old(self).channels@),
                    now,
                ),
            decreases self.channels@.len() - i,
        {
            if self.channels[i].expires <= now {
                proof {
                    lemma_remove(self.channels@, i as int);
                    lemma_entry(self.channels@, i as int);
                    assert(live_channels(as_map(self.channels@.remove(i as int)), now)
                        =~= live_channels(as_map(self.channels@), now));
                }
                self.channels.remove(i);
            } else {
                i += 1;
            }
        }
        proof {
            let m = as_map(self.channels@);
            assert forall|c: u16| m.contains_key(c) implies bound_at(m, c, now) by {
                let k = lemma_present(self.channels@, c);
            }
            assert(m =~= live_channels(m, now));
        }
    }

    /// Removes the permissions and bindings that no longer hold at `now`.
    pub fn sweep(&mut self, now: u64)
        requires
            old(self).wf(),
        ensures
            final(self).wf(),
            final(self).permissions() == live_permissions(old(self).permissions(), now),
            final(self).channels() == live_channels(old(self).channels(), now),
            final(self).permission_lifetime() == old(self).permission_lifetime(),
            final(self).channel_lifetime() == old(self).channel_lifetime(),
    {
        self.sweep_permissions(now);
        self.sweep_channels(now);
    }

    /// Binds channel `number` to `peer` from `now` for the channel lifetime,
    /// or refreshes that binding, and gives the peer's address a permission.
    /// Where the channel or the peer is bound otherwise at `now`, nothing
    /// changes.
    pub fn bind_channel(&mut self, number: u16, peer: TransportAddr, now: u64) -> (r: Result<
        (),
        BindError,
    >)
        requires
            old(self).wf(),
        ensures
            final(self).wf(),
            final(self).permission_lifetime() == old(self).permission_lifetime(),
            final(self).channel_lifetime() == old(self).channel_lifetime(),
            r == bind_outcome(old(self).channels(), number, peer, now),
            r is Ok ==> final(self).channels() == after_bind(
                old(self).channels(),
                number,
                peer,
                now,
                old(self).channel_lifetime(),
            ) && final(self).permissions() == after_permit(
                old(self).permissions(),
                peer.ip,
                now,
                old(self).permission_lifetime(),
            ),
            r is Err ==> *final(self) == *old(self),
    {
        if !channel_number_valid(number) {
            return Err(BindError::InvalidNumber);
        }
        if let Some(p) = self.peer_for(number, now) {
            if p != peer {
                return Err(BindError::ChannelInUse);
            }
        }
        if let Some(c) = self.channel_for(peer, now) {
            if c != number {
                return Err(BindError::PeerAlreadyBound);
            }
        }
        proof {
            assert(!peer_bound_elsewhere(self.channels(), number, peer, now)) by {
                if peer_bound_elsewhere(self.channels(), number, peer, now) {
                    let d = choose|d: u16|
                        d != number && #[trigger] binds(self.channels(), d, peer, now);
                    assert(self.channels().contains_key(d));
                }
            }
            lemma_after_bind_wf(self.channels(), number, peer, now, self.channel_lifetime);
        }
        self.sweep_channels(now);
        let b = ChannelBinding {
            number,
            peer,
            expires: now.saturating_add(self.channel_lifetime),
        };
        match self.find_channel(number) {
            Some(i) => {
                proof {
                    lemma_update(self.channels@, i as int, b);
                }
                self.channels.set(i, b);
            },
            None => {
                proof {
                    lemma_push(self.channels@, b);
                }
                self.channels.push(b);
            },
        }
        self.create_permission(peer.ip, now);
        Ok(())
    }
}

} // verus!
