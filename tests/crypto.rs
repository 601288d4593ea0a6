use kmh::cipher::Encryption;
use kmh::crypto::{
    decrypt_database, decrypt_database_aes, decrypt_database_chacha20, decrypt_database_salsa20,
    encrypt_database, encrypt_database_aes, encrypt_database_chacha20, encrypt_database_salsa20,
};
use kmh::codec::encode_records;
use kmh::keys::derive_key;
use kmh::record::{JsonDatabseKMH, VaultError};

const SUITES: [Encryption; 3] = [Encryption::AES256GCM, Encryption::SALSA20, Encryption::CHACHA20];

fn rec(t: &str, u: &str, p: &str, n: &str) -> JsonDatabseKMH {
    JsonDatabseKMH::new(t.to_string(), u.to_string(), p.to_string(), n.to_string())
}

fn sample() -> Vec<JsonDatabseKMH> {
    vec![
        rec("mail", "a@b.com", "p", ""),
        rec("bank", "me", "correct horse battery staple", "pin in drawer"),
        rec("ünïcode ☃", "\"quoted\"", "back\\slash", "line\nbreak"),
    ]
}

fn hex(b: &[u8]) -> String {
    b.iter().map(|x| format!("{:02x}", x)).collect()
}

#[test]
fn derive_key_is_sha256_of_the_secret() {
    assert_eq!(
        hex(&derive_key(b"abc")),
        "ba7816bf8f01cfea414140de5dae2223b00361a396177a9cb410ff61f20015ad"
    );
    assert_eq!(
        hex(&derive_key(b"")),
        "e3b0c44298fc1c149afbf4c8996fb92427ae41e4649b934ca495991b7852b855"
    );
}

#[test]
fn derive_key_is_deterministic() {
    let a = derive_key(b"hunter2");
    let b = derive_key(&b"hunter2".to_vec());
    assert_eq!(a, b);
    assert_ne!(derive_key(b"hunter2"), derive_key(b"hunter3"));
}

#[test]
fn round_trip_every_suite() {
    for suite in SUITES.iter() {
        for records in [vec![], sample()].iter() {
            let blob = encrypt_database(*suite, b"s3cret", records).unwrap();
            assert_eq!(decrypt_database(suite, b"s3cret", blob), Ok(records.clone()));
        }
    }
}

#[test]
fn round_trip_with_keyfile_bytes() {
    let keyfile: Vec<u8> = (0..1024u32).map(|i| (i * 7 + 3) as u8).collect();
    for suite in SUITES.iter() {
        let blob = encrypt_database(*suite, &keyfile, &sample()).unwrap();
        assert_eq!(decrypt_database(suite, &keyfile, blob), Ok(sample()));
    }
}

#[test]
fn aes_wrong_key_is_an_authentication_failure() {
    for records in [vec![], sample()].iter() {
        let blob = encrypt_database(Encryption::AES256GCM, b"right", records).unwrap();
        assert_eq!(
            decrypt_database(&Encryption::AES256GCM, b"wrong", blob),
            Err(VaultError::AuthFailure)
        );
    }
}

#[test]
fn aes_tampered_envelope_is_an_authentication_failure() {
    let mut blob = encrypt_database_aes(&sample(), b"k").unwrap();
    blob[0] ^= 1;
    assert_eq!(decrypt_database_aes(blob, b"k"), Err(VaultError::AuthFailure));
}

#[test]
fn aes_envelope_is_plaintext_plus_tag() {
    let blob = encrypt_database_aes(&vec![], b"k").unwrap();
    assert_eq!(blob.len(), 2 + 16);
    assert_eq!(decrypt_database_aes(blob, b"k"), Ok(b"[]".to_vec()));
}

#[test]
fn stream_ciphers_change_the_bytes() {
    let text = encode_records(&sample());
    let s = encrypt_database_salsa20(&sample(), b"k");
    let c = encrypt_database_chacha20(&sample(), b"k").unwrap();
    assert_eq!(s.len(), text.len());
    assert_eq!(c.len(), text.len());
    assert_ne!(s, text);
    assert_ne!(c, text);
    assert_ne!(s, c);
    assert_eq!(decrypt_database_salsa20(s, b"k"), text);
    assert_eq!(decrypt_database_chacha20(c, b"k"), text);
}

#[test]
fn stream_ciphers_with_wrong_key_give_other_bytes() {
    let text = encode_records(&sample());
    let s = encrypt_database_salsa20(&sample(), b"right");
    let c = encrypt_database_chacha20(&sample(), b"right").unwrap();
    assert_ne!(decrypt_database_salsa20(s.clone(), b"wrong"), text);
    assert_ne!(decrypt_database_chacha20(c.clone(), b"wrong"), text);
    assert_eq!(
        decrypt_database(&Encryption::SALSA20, b"wrong", s),
        Err(VaultError::DecodeFailure)
    );
    assert_eq!(
        decrypt_database(&Encryption::CHACHA20, b"wrong", c),
        Err(VaultError::DecodeFailure)
    );
}

#[test]
fn same_key_and_records_give_the_same_envelope() {
    for suite in SUITES.iter() {
        let a = encrypt_database(*suite, b"k", &sample()).unwrap();
        let b = encrypt_database(*suite, b"k", &sample()).unwrap();
        assert_eq!(a, b);
    }
}

#[test]
fn wrong_suite_does_not_open() {
    let blob = encrypt_database(Encryption::SALSA20, b"k", &sample()).unwrap();
    assert_eq!(
        decrypt_database(&Encryption::AES256GCM, b"k", blob.clone()),
        Err(VaultError::AuthFailure)
    );
    assert_eq!(
        decrypt_database(&Encryption::CHACHA20, b"k", blob),
        Err(VaultError::DecodeFailure)
    );
}

#[test]
fn garbage_file_does_not_open() {
    assert_eq!(
        decrypt_database(&Encryption::AES256GCM, b"k", vec![1, 2, 3]),
        Err(VaultError::AuthFailure)
    );
    assert_eq!(
        decrypt_database(&Encryption::SALSA20, b"k", vec![]),
        Err(VaultError::DecodeFailure)
    );
}
