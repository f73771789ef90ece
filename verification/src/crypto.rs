//! The two cryptographic functions that the server relies on. Both are
//! computed by outside code; nothing about them is proved here.

use vstd::prelude::*;

verus! {

/// Length of an HMAC-SHA1 tag.
pub const MAC_LEN: usize = 20;

/// The longest key or message that is handed to HMAC-SHA1.
pub const MAX_HMAC_INPUT: usize = 0xFFFF_FFFF;

/// The HMAC-SHA1 tag of `data` under `key`.
pub uninterp spec fn hmac_sha1_of(key: Seq<u8>, data: Seq<u8>) -> Seq<u8>;

/// The long-term key of a user: the MD5 digest of the user name, the realm
/// and the password, joined by colons.
pub uninterp spec fn long_term_key_of(
    username: Seq<char>,
    realm: Seq<char>,
    password: Seq<char>,
) -> Seq<u8>;

/// Calls `ring::hmac::sign` with a SHA-1 key made by `ring::hmac::Key::new`.
/// Believed of it: the tag depends on the key and the data alone and is
/// twenty bytes long. Inputs of 2^61 bytes or more, on which it panics, are
/// left out.
#[verifier::external_body]
pub(crate) fn hmac_sha1(key: &[u8], data: &[u8]) -> (mac: Vec<u8>)
    requires
        key@.len() <= MAX_HMAC_INPUT,
        data@.len() <= MAX_HMAC_INPUT,
    ensures
        mac@ == hmac_sha1_of(key@, data@),
        mac@.len() == MAC_LEN,
{
    let k = ring::hmac::Key::new(ring::hmac::HMAC_SHA1_FOR_LEGACY_USE_ONLY, key);
    ring::hmac::sign(&k, data).as_ref().to_vec()
}

/// Calls `turn::auth::generate_auth_key`. Believed of it: the key depends
/// on the three strings alone.
#[verifier::external_body]
pub(crate) fn derive_key(username: &str, realm: &str, password: &str) -> (key: Vec<u8>)
    ensures
        key@ == long_term_key_of(username@, realm@, password@),
{
    turn::auth::generate_auth_key(username, realm, password)
}

} // verus!
