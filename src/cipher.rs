//! The three cipher backends. Each runs under a fixed all-zero nonce, so the
//! same key and plaintext always give the same envelope. That is weak: under
//! a stream cipher, two saves with one key reveal the XOR of their plaintexts.
//! It stays so that existing vault files, which carry no nonce, still open.

use aes_gcm::aead::{Aead, KeyInit};
use aes_gcm::{Aes256Gcm, Key, Nonce};
use chacha20::ChaCha20;
use salsa20::cipher::{KeyIvInit, StreamCipher, StreamCipherSeek};
use salsa20::Salsa20;
use vstd::prelude::*;

verus! {

/// The cipher suite that protects a vault file.
#[derive(Clone, Copy, Debug, PartialEq, Eq, Structural)]
pub enum Encryption {
    AES256GCM,
    SALSA20,
    CHACHA20,
}

/// The longest plaintext that AES-256-GCM seals, in bytes.
pub const AES_MAX_PLAINTEXT: u64 = 0x10_0000_0000;

/// The longest buffer that one ChaCha20 keystream covers, in bytes:
/// 2^32 - 1 blocks of 64 bytes.
pub const CHACHA20_MAX_LEN: u64 = 0x3f_ffff_ffc0;

/// aes_gcm's error (`aead::Error`), which carries no detail.
#[verifier::external_type_specification]
#[verifier::external_body]
pub struct ExAeadError(aes_gcm::Error);

/// The AES-256-GCM envelope (ciphertext followed by its tag) of a plaintext
/// under a key and the all-zero nonce.
pub uninterp spec fn aes256gcm_seal(key: Seq<u8>, plaintext: Seq<u8>) -> Seq<u8>;

/// What AES-256-GCM decryption of an envelope under a key and the all-zero
/// nonce gives: the plaintext, or nothing when the tag does not verify.
pub uninterp spec fn aes256gcm_open(key: Seq<u8>, envelope: Seq<u8>) -> Option<Seq<u8>>;

/// The Salsa20 keystream byte at an offset, for a key and the all-zero nonce.
pub uninterp spec fn salsa20_keystream(key: Seq<u8>, offset: int) -> u8;

/// The ChaCha20 keystream byte at an offset, for a key and the all-zero nonce.
pub uninterp spec fn chacha20_keystream(key: Seq<u8>, offset: int) -> u8;

/// A buffer XORed, byte for byte, with the Salsa20 keystream from offset 0.
pub open spec fn salsa20_xor(key: Seq<u8>, data: Seq<u8>) -> Seq<u8> {
    Seq::new(data.len(), |i: int| data[i] ^ salsa20_keystream(key, i))
}

/// A buffer XORed, byte for byte, with the ChaCha20 keystream from offset 0.
pub open spec fn chacha20_xor(key: Seq<u8>, data: Seq<u8>) -> Seq<u8> {
    Seq::new(data.len(), |i: int| data[i] ^ chacha20_keystream(key, i))
}

/// Relies on aes_gcm's `Aead::encrypt` for `Aes256Gcm` with the all-zero
/// 96-bit nonce and no associated data: it fails only for a plaintext longer
/// than `P_MAX` (2^36 bytes), and what it returns opens again, under the same
/// key, to the plaintext.
#[verifier::external_body]
pub(crate) fn aes_seal(key: &[u8; 32], plaintext: &[u8]) -> (r: Result<Vec<u8>, aes_gcm::Error>)
    ensures
        r is Ok <==> plaintext@.len() <= AES_MAX_PLAINTEXT,
        match r {
            Ok(c) => c@ == aes256gcm_seal(key@, plaintext@) && aes256gcm_open(key@, c@) == Some(
                plaintext@,
            ),
            Err(_) => true,
        },
{
    let cipher = Aes256Gcm::new(Key::<Aes256Gcm>::from_slice(key));
    cipher.encrypt(Nonce::from_slice(&[0u8; 12]), plaintext)
}

/// Relies on aes_gcm's `Aead::decrypt` for `Aes256Gcm` with the all-zero
/// 96-bit nonce and no associated data: the plaintext when the tag verifies,
/// an error otherwise.
#[verifier::external_body]
pub(crate) fn aes_open(key: &[u8; 32], envelope: &[u8]) -> (r: Result<Vec<u8>, aes_gcm::Error>)
    ensures
        match r {
            Ok(p) => aes256gcm_open(key@, envelope@) == Some(p@),
            Err(_) => aes256gcm_open(key@, envelope@) is None,
        },
{
    let cipher = Aes256Gcm::new(Key::<Aes256Gcm>::from_slice(key));
    cipher.decrypt(Nonce::from_slice(&[0u8; 12]), envelope)
}

/// Relies on salsa20's `Salsa20` (`KeyIvInit::new` with the all-zero 64-bit
/// nonce, `seek(0)`, then `StreamCipher::apply_keystream`): every byte is
/// XORed with the keystream byte at its offset. Salsa20's 64-bit block
/// counter cannot run out on a buffer held in memory.
#[verifier::external_body]
pub(crate) fn salsa20_apply(key: &[u8; 32], data: &mut Vec<u8>)
    ensures
        final(data)@.len() == old(data)@.len(),
        forall|i: int|
            0 <= i < old(data)@.len() ==> #[trigger] final(data)@[i] == old(data)@[i]
                ^ salsa20_keystream(key@, i),
{
    let mut cipher = Salsa20::new(key.into(), &[0u8; 8].into());
    cipher.seek(0u32);
    cipher.apply_keystream(data.as_mut_slice());
}

/// Relies on chacha20's `ChaCha20` (`KeyIvInit::new` with the all-zero 96-bit
/// nonce, `seek(0)`, then `StreamCipher::apply_keystream`): every byte is
/// XORed with the keystream byte at its offset. It panics when the buffer
/// needs more than 2^32 - 1 blocks of keystream.
#[verifier::external_body]
pub(crate) fn chacha20_apply(key: &[u8; 32], data: &mut Vec<u8>)
    requires
        old(data)@.len() <= CHACHA20_MAX_LEN,
    ensures
        final(data)@.len() == old(data)@.len(),
        forall|i: int|
            0 <= i < old(data)@.len() ==> #[trigger] final(data)@[i] == old(data)@[i]
                ^ chacha20_keystream(key@, i),
{
    let mut cipher = ChaCha20::new(key.into(), &[0u8; 12].into());
    cipher.seek(0u32);
    cipher.apply_keystream(data.as_mut_slice());
}

/// The envelope of a plaintext under a suite and a key, or nothing when the
/// suite cannot process a plaintext of that length.
pub open spec fn seal_envelope(suite: Encryption, key: Seq<u8>, plaintext: Seq<u8>) -> Option<
    Seq<u8>,
> {
    match suite {
        Encryption::AES256GCM => if plaintext.len() <= AES_MAX_PLAINTEXT {
            Some(aes256gcm_seal(key, plaintext))
        } else {
            None
        },
        Encryption::SALSA20 => Some(salsa20_xor(key, plaintext)),
        Encryption::CHACHA20 => if plaintext.len() <= CHACHA20_MAX_LEN {
            Some(chacha20_xor(key, plaintext))
        } else {
            None
        },
    }
}

/// What decrypting an envelope under a suite and a key gives: for AES-256-GCM
/// nothing when the tag does not verify; for the stream ciphers the keystream
/// XOR of any buffer they can process, right key or wrong.
pub open spec fn open_envelope(suite: Encryption, key: Seq<u8>, envelope: Seq<u8>) -> Option<
    Seq<u8>,
> {
    match suite {
        Encryption::AES256GCM => aes256gcm_open(key, envelope),
        Encryption::SALSA20 => Some(salsa20_xor(key, envelope)),
        Encryption::CHACHA20 => if envelope.len() <= CHACHA20_MAX_LEN {
            Some(chacha20_xor(key, envelope))
        } else {
            None
        },
    }
}

/// Applying a stream cipher's keystream twice gives the buffer back.
pub proof fn lemma_stream_cipher_involution(suite: Encryption, key: Seq<u8>, data: Seq<u8>)
    requires
        suite != Encryption::AES256GCM,
        seal_envelope(suite, key, data) is Some,
    ensures
        open_envelope(suite, key, seal_envelope(suite, key, data)->0) == Some(data),
{
    let c = seal_envelope(suite, key, data)->0;
    let p = open_envelope(suite, key, c)->0;
    assert forall|i: int| 0 <= i < data.len() implies #[trigger] p[i] == data[i] by {
        let k = if suite == Encryption::SALSA20 {
            salsa20_keystream(key, i)
        } else {
            chacha20_keystream(key, i)
        };
        let d = data[i];
        assert(d ^ k ^ k == d) by (bit_vector);
    }
    assert(p =~= data);
}

} // verus!
