//! Long-term credentials by user name, and the nonces that the server has
//! handed out.

use vstd::prelude::*;
use vstd::string::StringSliceAdditionalSpecFns;
use crate::crypto::{derive_key, long_term_key_of, MAX_HMAC_INPUT};
use crate::keyed::{
    as_map, distinct, lemma_absent, lemma_entry, lemma_present, lemma_push, lemma_remove,
    lemma_update, Keyed,
};
use crate::peers::deadline;
use crate::wire::{bytes_eq, copy_range};

verus! {

/// A user's long-term key.
#[derive(Debug)]
pub struct Credential {
    pub username: Vec<u8>,
    pub key: Vec<u8>,
}

impl Keyed for Credential {
    type Key = Seq<u8>;

    open spec fn key(&self) -> Seq<u8> {
        self.username@
    }
}

/// Every credential is filed under its own user name, and its key is short
/// enough to be used.
pub open spec fn credentials_wf(m: Map<Seq<u8>, Credential>) -> bool {
    forall|u: Seq<u8>| #[trigger]
        m.contains_key(u) ==> m[u].username@ == u && m[u].key@.len() <= MAX_HMAC_INPUT
}

/// The key of `username`, if the user is known.
pub open spec fn key_of(m: Map<Seq<u8>, Credential>, username: Seq<u8>) -> Option<Seq<u8>> {
    if m.contains_key(username) {
        Some(m[username].key@)
    } else {
        None
    }
}

/// Whether `after` is `before` with `key` filed under `username`.
pub open spec fn filed(
    before: Map<Seq<u8>, Credential>,
    after: Map<Seq<u8>, Credential>,
    username: Seq<u8>,
    key: Seq<u8>,
) -> bool {
    &&& after.contains_key(username)
    &&& after == before.insert(username, after[username])
    &&& after[username].username@ == username
    &&& after[username].key@ == key
}

/// The users that the server knows, each with a long-term key.
#[derive(Debug)]
pub struct CredentialStore {
    entries: Vec<Credential>,
}

impl CredentialStore {
    /// The credentials by user name.
    pub closed spec fn credentials(&self) -> Map<Seq<u8>, Credential> {
        as_map(self.entries@)
    }

    /// The invariant of the representation.
    pub closed spec fn inv(&self) -> bool {
        distinct(self.entries@)
    }

    /// The invariant of the store.
    pub open spec fn wf(&self) -> bool {
        self.inv() && credentials_wf(self.credentials())
    }

    /// A store that knows no user.
    pub fn new() -> (s: CredentialStore)
        ensures
            s.wf(),
            s.credentials() == Map::<Seq<u8>, Credential>::empty(),
    {
        let s = CredentialStore { entries: Vec::new() };
        assert(s.credentials() =~= Map::<Seq<u8>, Credential>::empty());
        s
    }

    fn find(&self, username: &[u8]) -> (r: Option<usize>)
        requires
            self.inv(),
        ensures
            match r {
                Some(i) => i < self.entries@.len() && self.entries@[i as int].username@
                    == username@ && self.credentials().contains_key(username@)
                    && self.credentials()[username@] == self.entries@[i as int],
                None => !self.credentials().contains_key(username@),
            },
    {
        let mut i: usize = 0;
        while i < self.entries.len()
            invariant
                self.inv(),
                i <= self.entries@.len(),
                forall|k: int| 0 <= k < i ==> (#[trigger] self.entries@[k]).key() != username@,
            decreases self.entries@.len() - i,
        {
            if bytes_eq(self.entries[i].username.as_slice(), username) {
                proof {
                    lemma_entry(self.entries@, i as int);
                }
                return Some(i);
            }
            i += 1;
        }
        proof {
            lemma_absent(self.entries@, username@);
        }
        None
    }

    /// Files `key` under `username`, in place of the key that the user had.
    /// A key too long to be used is not taken, and `false` is returned.
    pub fn add(&mut self, username: &[u8], key: &[u8]) -> (taken: bool)
        requires
            old(self).wf(),
        ensures
            final(self).wf(),
            taken == (key@.len() <= MAX_HMAC_INPUT),
            !taken ==> final(self).credentials() == old(self).credentials(),
            taken ==> filed(old(self).credentials(), final(self).credentials(), username@, key@),
    {
        if key.len() > MAX_HMAC_INPUT {
            return false;
        }
        let c = Credential {
            username: copy_range(username, 0, username.len()),
            key: copy_range(key, 0, key.len()),
        };
        assert(c.username@ =~= username@);
        assert(c.key@ =~= key@);
        match self.find(username) {
            Some(i) => {
                proof {
                    lemma_update(self.entries@, i as int, c);
                }
                self.entries.set(i, c);
            },
            None => {
                proof {
                    lemma_push(self.entries@, c);
                }
                self.entries.push(c);
            },
        }
        true
    }

    /// Files under `username` the long-term key made of the user name, the
    /// realm and the password.
    pub fn add_password(&mut self, username: &str, realm: &str, password: &str) -> (taken: bool)
        requires
            old(self).wf(),
        ensures
            final(self).wf(),
            taken == (long_term_key_of(username@, realm@, password@).len() <= MAX_HMAC_INPUT),
            !taken ==> final(self).credentials() == old(self).credentials(),
            taken ==> filed(
                old(self).credentials(),
                final(self).credentials(),
                username.spec_bytes(),
                long_term_key_of(username@, realm@, password@),
            ),
    {
        let key = derive_key(username, realm, password);
        self.add(username.as_bytes(), key.as_slice())
    }

    /// The long-term key of `username`, if the user is known.
    pub fn lookup(&self, username: &[u8]) -> (r: Option<&Vec<u8>>)
        requires
            self.wf(),
        ensures
            match r {
                Some(k) => key_of(self.credentials(), username@) == Some(k@) && k@.len()
                    <= MAX_HMAC_INPUT,
                None => key_of(self.credentials(), username@).is_none(),
            },
    {
        match self.find(username) {
            Some(i) => Some(&self.entries[i].key),
            None => None,
        }
    }
}

/// A nonce and the instant at which it was handed out.
#[derive(Debug)]
pub struct Nonce {
    pub value: Vec<u8>,
    pub issued: u64,
}

impl Keyed for Nonce {
    type Key = Seq<u8>;

    open spec fn key(&self) -> Seq<u8> {
        self.value@
    }
}

/// Whether nonce `value` was handed out less than `lifetime` before `now`.
pub open spec fn nonce_fresh(m: Map<Seq<u8>, u64>, value: Seq<u8>, now: u64, lifetime: u64) -> bool {
    m.contains_key(value) && now < deadline(m[value], lifetime)
}

/// The nonces that are fresh at `now`.
pub open spec fn fresh_nonces(m: Map<Seq<u8>, u64>, now: u64, lifetime: u64) -> Map<
    Seq<u8>,
    u64,
> {
    Map::new(|v: Seq<u8>| nonce_fresh(m, v, now, lifetime), |v: Seq<u8>| m[v])
}

/// The nonces that the server has handed out.
#[derive(Debug)]
pub struct NonceTable {
    entries: Vec<Nonce>,
    lifetime: u64,
}

impl NonceTable {
    /// The instant of issue of each nonce, stale ones included until the
    /// next sweep.
    pub closed spec fn issued(&self) -> Map<Seq<u8>, u64> {
        Map::new(
            |v: Seq<u8>| as_map(self.entries@).contains_key(v),
            |v: Seq<u8>| as_map(self.entries@)[v].issued,
        )
    }

    /// How long a nonce is good for.
    pub closed spec fn lifetime(&self) -> u64 {
        self.lifetime
    }

    /// The invariant of the table.
    pub closed spec fn wf(&self) -> bool {
        distinct(self.entries@)
    }

    /// A table without nonces.
    pub fn new(lifetime: u64) -> (t: NonceTable)
        ensures
            t.wf(),
            t.lifetime() == lifetime,
            t.issued() == Map::<Seq<u8>, u64>::empty(),
    {
        let t = NonceTable { entries: Vec::new(), lifetime };
        assert(t.issued() =~= Map::<Seq<u8>, u64>::empty());
        t
    }

    fn find(&self, value: &[u8]) -> (r: Option<usize>)
        requires
            self.wf(),
        ensures
            match r {
                Some(i) => i < self.entries@.len() && self.entries@[i as int].value@ == value@
                    && self.issued().contains_key(value@) && self.issued()[value@]
                    == self.entries@[i as int].issued,
                None => !self.issued().contains_key(value@),
            },
    {
        let mut i: usize = 0;
        while i < self.entries.len()
            invariant
                self.wf(),
                i <= self.entries@.len(),
                forall|k: int| 0 <= k < i ==> (#[trigger] self.entries@[k]).key() != value@,
            decreases self.entries@.len() - i,
        {
            if bytes_eq(self.entries[i].value.as_slice(), value) {
                proof {
                    lemma_entry(self.entries@, i as int);
                }
                return Some(i);
            }
            i += 1;
        }
        proof {
            lemma_absent(self.entries@, value@);
        }
        None
    }

    /// Records that nonce `value` was handed out at `now`.
    pub fn issue(&mut self, value: &[u8], now: u64)
        requires
            old(self).wf(),
        ensures
            final(self).wf(),
            final(self).lifetime() == old(self).lifetime(),
            final(self).issued() == old(self).issued().insert(value@, now),
    {
        let n = Nonce { value: copy_range(value, 0, value.len()), issued: now };
        assert(n.value@ =~= value@);
        match self.find(value) {
            Some(i) => {
                proof {
                    lemma_update(self.entries@, i as int, n);
                }
                self.entries.set(i, n);
            },
            None => {
                proof {
                    lemma_push(self.entries@, n);
                }
                self.entries.push(n);
            },
        }
        assert(self.issued() =~= old(self).issued().insert(value@, now));
    }

    /// Whether nonce `value` is fresh at `now`.
    pub fn is_fresh(&self, value: &[u8], now: u64) -> (r: bool)
        requires
            self.wf(),
        ensures
            r == nonce_fresh(self.issued(), value@, now, self.lifetime()),
    {
        match self.find(value) {
            Some(i) => now < self.entries[i].issued.saturating_add(self.lifetime),
            None => false,
        }
    }

    /// Forgets the nonces that are stale at `now`.
    pub fn sweep(&mut self, now: u64)
        requires
            old(self).wf(),
        ensures
            final(self).wf(),
            final(self).lifetime() == old(self).lifetime(),
            final(self).issued() == fresh_nonces(old(self).issued(), now, old(self).lifetime()),
    {
        let mut i: usize = 0;
        let ghost life = self.lifetime;
        while i < self.entries.len()
            invariant
                i <= self.entries@.len(),
                self.wf(),
                self.lifetime == life,
                life == old(self).lifetime,
                forall|k: int|
                    0 <= k < i ==> now < deadline((#[trigger] self.entries@[k]).issued, life),
                fresh_nonces(self.issued(), now, life) == fresh_nonces(
                    old(self).issued(),
                    now,
                    life,
                ),
            decreases self.entries@.len() - i,
        {
            if self.entries[i].issued.saturating_add(self.lifetime) <= now {
                let ghost before = self.issued();
                proof {
                    lemma_remove(self.entries@, i as int);
                    lemma_entry(self.entries@, i as int);
                }
                self.entries.remove(i);
                proof {
                    assert(fresh_nonces(self.issued(), now, life) =~= fresh_nonces(
                        before,
                        now,
                        life,
                    ));
                }
            } else {
                i += 1;
            }
        }
        proof {
            let m = self.issued();
            assert forall|v: Seq<u8>| m.contains_key(v) implies nonce_fresh(m, v, now, life) by {
                let k = lemma_present(self.entries@, v);
            }
            assert(m =~= fresh_nonces(m, now, life));
        }
    }
}

} // verus!
