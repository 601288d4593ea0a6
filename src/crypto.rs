//! The vault envelope: the record list's canonical text, sealed under the key
//! derived from the master secret by the selected cipher suite.

use crate::cipher::{
    aes256gcm_open, aes256gcm_seal, aes_open, aes_seal, chacha20_apply, chacha20_xor,
    lemma_stream_cipher_involution, open_envelope, salsa20_apply, salsa20_xor, seal_envelope,
    Encryption, AES_MAX_PLAINTEXT, CHACHA20_MAX_LEN,
};
use crate::codec::{decode_records, decoded, encode_records, lemma_decode_encode, records_text};
use crate::keys::{derive_key, key_of, MAX_SECRET_LEN};
use crate::record::{view_records, CredentialView, JsonDatabseKMH, VaultError};
use vstd::prelude::*;

verus! {

/// The record list that a vault file holds, or why it cannot be read.
pub type Contents = Result<Seq<CredentialView>, VaultError>;

/// What a vault file holds for a suite and a master secret: the record list,
/// or why it cannot be read. A tag that AES-256-GCM rejects is an
/// authentication failure; every other unreadable file is a decoding failure,
/// the only sign of a wrong secret that the stream ciphers give.
pub open spec fn vault_contents(suite: Encryption, secret: Seq<u8>, envelope: Seq<u8>) -> Contents {
    match open_envelope(suite, key_of(secret), envelope) {
        None => if suite == Encryption::AES256GCM {
            Err(VaultError::AuthFailure)
        } else {
            Err(VaultError::DecodeFailure)
        },
        Some(text) => match decoded(text) {
            Some(rs) => Ok(rs),
            None => Err(VaultError::DecodeFailure),
        },
    }
}

/// Encrypts a record list with AES-256-GCM under the key derived from
/// `password`.
pub fn encrypt_database_aes(db: &Vec<JsonDatabseKMH>, password: &[u8]) -> (r: Result<
    Vec<u8>,
    VaultError,
>)
    requires
        password@.len() <= MAX_SECRET_LEN,
    ensures
        r is Ok <==> records_text(view_records(db@)).len() <= AES_MAX_PLAINTEXT,
        match r {
            Ok(c) => {
                &&& c@ == aes256gcm_seal(key_of(password@), records_text(view_records(db@)))
                &&& vault_contents(Encryption::AES256GCM, password@, c@) == Contents::Ok(
                    view_records(db@),
                )
            },
            Err(e) => e == VaultError::TooLarge,
        },
{
    let key = derive_key(password);
    let text = encode_records(db);
    match aes_seal(&key, text.as_slice()) {
        Ok(c) => {
            proof {
                lemma_decode_encode(view_records(db@));
            }
            Ok(c)
        },
        Err(_) => Err(VaultError::TooLarge),
    }
}

/// Decrypts an AES-256-GCM envelope under the key derived from `password`:
/// the plaintext, or an authentication failure when the tag does not verify.
pub fn decrypt_database_aes(db: Vec<u8>, password: &[u8]) -> (r: Result<Vec<u8>, VaultError>)
    requires
        password@.len() <= MAX_SECRET_LEN,
    ensures
        match r {
            Ok(p) => aes256gcm_open(key_of(password@), db@) == Some(p@),
            Err(e) => {
                &&& e == VaultError::AuthFailure
                &&& aes256gcm_open(key_of(password@), db@) is None
            },
        },
{
    let key = derive_key(password);
    match aes_open(&key, db.as_slice()) {
        Ok(p) => Ok(p),
        Err(_) => Err(VaultError::AuthFailure),
    }
}

/// Encrypts a record list with Salsa20 under the key derived from `password`.
pub fn encrypt_database_salsa20(db: &Vec<JsonDatabseKMH>, password: &[u8]) -> (r: Vec<u8>)
    requires
        password@.len() <= MAX_SECRET_LEN,
    ensures
        r@ == salsa20_xor(key_of(password@), records_text(view_records(db@))),
{
    let key = derive_key(password);
    let mut bytes = encode_records(db);
    salsa20_apply(&key, &mut bytes);
    bytes
}

/// Decrypts a Salsa20 envelope under the key derived from `password`. A wrong
/// key gives other bytes, not an error.
pub fn decrypt_database_salsa20(db: Vec<u8>, password: &[u8]) -> (r: Vec<u8>)
    requires
        password@.len() <= MAX_SECRET_LEN,
    ensures
        r@ == salsa20_xor(key_of(password@), db@),
{
    let key = derive_key(password);
    let mut bytes = db;
    salsa20_apply(&key, &mut bytes);
    bytes
}

/// Encrypts a record list with ChaCha20 under the key derived from
/// `password`.
pub fn encrypt_database_chacha20(db: &Vec<JsonDatabseKMH>, password: &[u8]) -> (r: Result<
    Vec<u8>,
    VaultError,
>)
    requires
        password@.len() <= MAX_SECRET_LEN,
    ensures
        r is Ok <==> records_text(view_records(db@)).len() <= CHACHA20_MAX_LEN,
        match r {
            Ok(c) => c@ == chacha20_xor(key_of(password@), records_text(view_records(db@))),
            Err(e) => e == VaultError::TooLarge,
        },
{
    let key = derive_key(password);
    let mut bytes = encode_records(db);
    if bytes.len() as u64 > CHACHA20_MAX_LEN {
        return Err(VaultError::TooLarge);
    }
    chacha20_apply(&key, &mut bytes);
    Ok(bytes)
}

/// Decrypts a ChaCha20 envelope under the key derived from `password`. A
/// wrong key gives other bytes, not an error.
pub fn decrypt_database_chacha20(db: Vec<u8>, password: &[u8]) -> (r: Vec<u8>)
    requires
        password@.len() <= MAX_SECRET_LEN,
        db@.len() <= CHACHA20_MAX_LEN,
    ensures
        r@ == chacha20_xor(key_of(password@), db@),
{
    let key = derive_key(password);
    let mut bytes = db;
    chacha20_apply(&key, &mut bytes);
    bytes
}

/// Seals a record list under a suite and the key derived from `password`.
/// What comes out opens, under the same suite and secret, to the same list.
pub fn encrypt_database(
    encryption: Encryption,
    password: &[u8],
    db: &Vec<JsonDatabseKMH>,
) -> (r: Result<Vec<u8>, VaultError>)
    requires
        password@.len() <= MAX_SECRET_LEN,
    ensures
        ({
            let sealed = seal_envelope(
                encryption,
                key_of(password@),
                records_text(view_records(db@)),
            );
            &&& r is Ok <==> sealed is Some
            &&& match r {
                Ok(c) => {
                    &&& sealed == Some(c@)
                    &&& vault_contents(encryption, password@, c@) == Contents::Ok(
                        view_records(db@),
                    )
                },
                Err(e) => e == VaultError::TooLarge,
            }
        }),
{
    proof {
        lemma_decode_encode(view_records(db@));
    }
    match encryption {
        Encryption::AES256GCM => encrypt_database_aes(db, password),
        Encryption::SALSA20 => {
            let c = encrypt_database_salsa20(db, password);
            proof {
                lemma_stream_cipher_involution(
                    encryption,
                    key_of(password@),
                    records_text(view_records(db@)),
                );
            }
            Ok(c)
        },
        Encryption::CHACHA20 => {
            let r = encrypt_database_chacha20(db, password);
            proof {
                if r is Ok {
                    lemma_stream_cipher_involution(
                        encryption,
                        key_of(password@),
                        records_text(view_records(db@)),
                    );
                }
            }
            r
        },
    }
}

/// Opens a vault file under a suite and the key derived from `password`:
/// the record list it holds, or why it cannot be read.
pub fn decrypt_database(encryption: &Encryption, password: &[u8], db: Vec<u8>) -> (r: Result<
    Vec<JsonDatabseKMH>,
    VaultError,
>)
    requires
        password@.len() <= MAX_SECRET_LEN,
    ensures
        match r {
            Ok(v) => vault_contents(*encryption, password@, db@) == Contents::Ok(view_records(v@)),
            Err(e) => vault_contents(*encryption, password@, db@) == Contents::Err(
                e,
            ),
        },
{
    let text = match encryption {
        Encryption::AES256GCM => match decrypt_database_aes(db, password) {
            Ok(p) => p,
            Err(e) => return Err(e),
        },
        Encryption::SALSA20 => decrypt_database_salsa20(db, password),
        Encryption::CHACHA20 => {
            if db.len() as u64 > CHACHA20_MAX_LEN {
                return Err(VaultError::DecodeFailure);
            }
            decrypt_database_chacha20(db, password)
        },
    };
    decode_records(text.as_slice())
}

} // verus!
