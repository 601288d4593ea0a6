//! Key derivation: one unsalted SHA-256 pass over the raw secret bytes. It has
//! no salt and no stretching, so a weak password is cheap to guess; it stays
//! so that existing vault files still open, and a stronger derivation would
//! replace `derive_key` alone.

use ring::digest::{digest, SHA256};
use vstd::prelude::*;

verus! {

/// The longest secret, in bytes, whose length in bits still fits in 64 bits.
pub const MAX_SECRET_LEN: u64 = 0x1fff_ffff_ffff_ffff;

/// The SHA-256 digest of a byte sequence.
pub uninterp spec fn sha256_of(data: Seq<u8>) -> Seq<u8>;

/// The key that a master secret unlocks.
pub open spec fn key_of(secret: Seq<u8>) -> Seq<u8> {
    sha256_of(secret)
}

/// Relies on ring::digest::digest with SHA256: the digest of the input bytes,
/// a function of those bytes alone. ring panics only when the input's length
/// in bits does not fit in 64 bits.
#[verifier::external_body]
fn sha256(data: &[u8]) -> (r: [u8; 32])
    requires
        data@.len() <= MAX_SECRET_LEN,
    ensures
        r@ == sha256_of(data@),
{
    digest(&SHA256, data).as_ref().try_into().unwrap()
}

/// Derives the 32-byte symmetric key from a master secret (password text or
/// keyfile bytes).
pub fn derive_key(secret: &[u8]) -> (r: [u8; 32])
    requires
        secret@.len() <= MAX_SECRET_LEN,
    ensures
        r@ == key_of(secret@),
{
    sha256(secret)
}

/// The same secret bytes always give the same key: the derivation depends on
/// the bytes of the secret and on nothing else.
pub proof fn lemma_derive_key_deterministic(a: Seq<u8>, b: Seq<u8>)
    requires
        a == b,
    ensures
        key_of(a) == key_of(b),
{
}

} // verus!
