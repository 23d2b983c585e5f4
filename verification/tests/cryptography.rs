use cookbook::cryptography::{
    digest_of_chunks, hash_and_verify, salt_hash_password, sign_and_verify, sign_message,
    sign_with, CryptoError, Sha256, CREDENTIAL_LEN, PBKDF2_ROUNDS,
};
use ring::{hmac, pbkdf2};
use std::num::NonZeroU32;

fn hex(bytes: &[u8]) -> String {
    bytes.iter().map(|b| format!("{:02x}", b)).collect()
}

#[test]
fn test_sign_message() {
    sign_message().unwrap();
}

#[test]
fn test_salt_hash_password() {
    salt_hash_password().unwrap();
}

#[test]
fn signature_is_the_hmac_sha256_tag() {
    let tag = sign_and_verify(b"Jefe", b"what do ya want for nothing?").unwrap();
    assert_eq!(
        hex(&tag),
        "5bdcc146bf60754e6a042426089575c75a003f089d2739839dec58b964ec3843"
    );
    let key = hmac::Key::new(hmac::HMAC_SHA256, b"Jefe");
    assert!(hmac::verify(&key, b"what do ya want for nothing?", &tag).is_ok());
    assert!(hmac::verify(&key, b"what do ya want for nothing!", &tag).is_err());
}

#[test]
fn signature_depends_on_key_and_message() {
    let a = sign_and_verify(&[0u8; 48], b"Legitimate and important message.").unwrap();
    let b = sign_and_verify(&[1u8; 48], b"Legitimate and important message.").unwrap();
    let c = sign_and_verify(&[0u8; 48], b"Another message.").unwrap();
    assert_eq!(a.len(), 32);
    assert_ne!(a, b);
    assert_ne!(a, c);
    assert_eq!(a, sign_and_verify(&[0u8; 48], b"Legitimate and important message.").unwrap());
}

#[test]
fn hash_is_the_pbkdf2_key_of_the_password() {
    let salt = [7u8; CREDENTIAL_LEN];
    let hash = hash_and_verify(&salt, b"Guess Me If You Can!", b"nope").unwrap();
    let mut expected = [0u8; CREDENTIAL_LEN];
    pbkdf2::derive(
        pbkdf2::PBKDF2_HMAC_SHA512,
        NonZeroU32::new(PBKDF2_ROUNDS).unwrap(),
        &salt,
        b"Guess Me If You Can!",
        &mut expected,
    );
    assert_eq!(hash, expected.to_vec());
    assert_eq!(hash.len(), 64);
    assert_ne!(hash, salt.to_vec());
}

#[test]
fn equal_passwords_are_reported() {
    let salt = [0u8; 16];
    assert_eq!(
        hash_and_verify(&salt, b"same", b"same"),
        Err(CryptoError::WrongPasswordAccepted)
    );
}

#[test]
fn credential_holds_salt_and_hash_of_full_length() {
    let credential = salt_hash_password().unwrap();
    assert_eq!(credential.salt.len(), CREDENTIAL_LEN);
    assert_eq!(credential.hash.len(), CREDENTIAL_LEN);
    assert!(pbkdf2::verify(
        pbkdf2::PBKDF2_HMAC_SHA512,
        NonZeroU32::new(100_000).unwrap(),
        &credential.salt,
        b"Guess Me If You Can!",
        &credential.hash,
    )
    .is_ok());
    let other = salt_hash_password().unwrap();
    assert_ne!(credential.salt, other.salt);
}

#[test]
fn digest_of_data_in_pieces() {
    let whole = digest_of_chunks(&vec![b"abc".to_vec()]).unwrap();
    assert_eq!(
        hex(&whole),
        "ba7816bf8f01cfea414140de5dae2223b00361a396177a9cb410ff61f20015ad"
    );
    let pieces = digest_of_chunks(&vec![b"a".to_vec(), vec![], b"bc".to_vec()]).unwrap();
    assert_eq!(pieces, whole);
    let none = digest_of_chunks(&vec![]).unwrap();
    assert_eq!(
        hex(&none),
        "e3b0c44298fc1c149afbf4c8996fb92427ae41e4649b934ca495991b7852b855"
    );
    assert_ne!(digest_of_chunks(&vec![b"ab".to_vec(), b"c ".to_vec()]).unwrap(), whole);
}

#[test]
fn digest_fed_step_by_step() {
    let data: Vec<u8> = (0..5000u32).map(|i| (i % 251) as u8).collect();
    let mut hasher = Sha256::new();
    for chunk in data.chunks(1024) {
        assert!(hasher.update(chunk));
    }
    let digest = hasher.finish();
    assert_eq!(digest.len(), 32);
    assert_eq!(digest, ring::digest::digest(&ring::digest::SHA256, &data).as_ref().to_vec());
    assert_eq!(digest, digest_of_chunks(&vec![data]).unwrap());
}

#[test]
fn signing_follows_the_generator() {
    assert_eq!(sign_with(Ok(vec![7u8; 48])), Ok(()));
    assert_eq!(sign_with(Ok(vec![])), Ok(()));
    assert_eq!(
        sign_with(Err(ring::error::Unspecified)),
        Err(CryptoError::NoRandomness)
    );
}
