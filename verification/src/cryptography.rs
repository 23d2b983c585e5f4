//! Signing a message with HMAC, hashing a password with a random salt, and
//! the SHA-256 digest of data that comes in pieces.
//!
//! The primitives are those of `ring`. What they compute is named here, not
//! spelled out: the contracts say which name every result goes by, and the
//! functions built on them are proved from that.

use ring::digest::{Context, SHA256};
use ring::error::Unspecified;
use ring::hmac;
use ring::pbkdf2;
use ring::rand::{SecureRandom, SystemRandom};
use std::num::NonZeroU32;
use vstd::prelude::*;

verus! {

/// The most bytes that a digest is taken of, and so the longest key, message,
/// salt or secret that is handed on to one. The digests take a little more.
pub const MAX_DIGEST_INPUT: u64 = 0x1000_0000_0000_0000;

/// The longest key that is derived from a password.
pub const MAX_DERIVED_LEN: usize = 0xFFFF_FFFF;

/// The length of the random signing key of `sign_message`.
pub const KEY_LEN: usize = 48;

/// The length of a salt and of a password hash: the output length of SHA-512.
pub const CREDENTIAL_LEN: usize = 64;

/// The number of PBKDF2 rounds behind a password hash.
pub const PBKDF2_ROUNDS: u32 = 100_000;

/// The message that `sign_message` signs.
pub open spec fn message_text() -> Seq<char> {
    "Legitimate and important message."@
}

/// The password that `salt_hash_password` hashes.
pub open spec fn password_text() -> Seq<char> {
    "Guess Me If You Can!"@
}

/// The password that `salt_hash_password` expects to be turned away.
pub open spec fn wrong_password_text() -> Seq<char> {
    "Definitely not the correct password"@
}

/// Why an operation failed.
#[derive(Debug, Clone, Copy, PartialEq, Eq, Structural)]
pub enum CryptoError {
    /// The system gave no random bytes.
    NoRandomness,
    /// A signature did not verify against the key and message it was made of.
    BadSignature,
    /// A password hash did not verify against the password it was made of.
    BadHash,
    /// A password other than the hashed one was accepted.
    WrongPasswordAccepted,
}

/// A salt and the hash of a password under it.
#[derive(Debug)]
pub struct Credential {
    pub salt: Vec<u8>,
    pub hash: Vec<u8>,
}

/// `ring::error::Unspecified`, the error of `ring` that carries no detail.
#[verifier::external_type_specification]
#[verifier::external_body]
pub struct ExUnspecified(Unspecified);

/// The HMAC-SHA256 tag of `data` under a key made of `key_value`.
pub uninterp spec fn hmac_sha256(key_value: Seq<u8>, data: Seq<u8>) -> Seq<u8>;

/// The PBKDF2-HMAC-SHA512 key of `len` bytes derived from `secret` and `salt`
/// in `rounds` rounds.
pub uninterp spec fn pbkdf2_hmac_sha512(rounds: u32, salt: Seq<u8>, secret: Seq<u8>, len: nat) -> Seq<u8>;

/// Whether `key` is not empty and is the key of its own length derived from
/// `secret` and `salt` in `rounds` rounds.
pub open spec fn is_derived_key(rounds: u32, salt: Seq<u8>, secret: Seq<u8>, key: Seq<u8>) -> bool {
    key.len() > 0 && key == pbkdf2_hmac_sha512(rounds, salt, secret, key.len())
}

/// `SecureRandom::fill` of a `SystemRandom` on a buffer of `len` bytes. The
/// bytes come from the operating system: nothing is known of them but their
/// number, and the call may fail.
#[verifier::external_body]
fn random_bytes(len: usize) -> (bytes: Result<Vec<u8>, Unspecified>)
    ensures
        bytes is Ok ==> bytes->Ok_0@.len() == len,
{
    let mut buffer = vec![0u8; len];
    SystemRandom::new().fill(&mut buffer)?;
    Ok(buffer)
}

/// `hmac::sign` with a key that `hmac::Key::new` makes of `key_value` for
/// `HMAC_SHA256`: the tag named `hmac_sha256`.
#[verifier::external_body]
fn hmac_sign(key_value: &[u8], data: &[u8]) -> (tag: Vec<u8>)
    requires
        key_value@.len() <= MAX_DIGEST_INPUT,
        data@.len() <= MAX_DIGEST_INPUT,
    ensures
        tag@ == hmac_sha256(key_value@, data@),
{
    let key = hmac::Key::new(hmac::HMAC_SHA256, key_value);
    hmac::sign(&key, data).as_ref().to_vec()
}

/// `hmac::verify` with a key that `hmac::Key::new` makes of `key_value` for
/// `HMAC_SHA256`: `Ok` exactly where `tag` is the tag of `data` under that key.
#[verifier::external_body]
fn hmac_verify(key_value: &[u8], data: &[u8], tag: &[u8]) -> (outcome: Result<(), Unspecified>)
    requires
        key_value@.len() <= MAX_DIGEST_INPUT,
        data@.len() <= MAX_DIGEST_INPUT,
    ensures
        outcome is Ok <==> tag@ == hmac_sha256(key_value@, data@),
{
    let key = hmac::Key::new(hmac::HMAC_SHA256, key_value);
    hmac::verify(&key, data, tag)
}

/// `pbkdf2::derive` with `PBKDF2_HMAC_SHA512` into a buffer of `len` bytes:
/// the key named `pbkdf2_hmac_sha512`, of that length.
#[verifier::external_body]
fn pbkdf2_derive(rounds: u32, salt: &[u8], secret: &[u8], len: usize) -> (key: Vec<u8>)
    requires
        rounds > 0,
        salt@.len() <= MAX_DIGEST_INPUT,
        secret@.len() <= MAX_DIGEST_INPUT,
        len <= MAX_DERIVED_LEN,
    ensures
        key@ == pbkdf2_hmac_sha512(rounds, salt@, secret@, len as nat),
        key@.len() == len,
{
    let mut key = vec![0u8; len];
    let rounds = NonZeroU32::new(rounds).unwrap();
    pbkdf2::derive(pbkdf2::PBKDF2_HMAC_SHA512, rounds, salt, secret, &mut key);
    key
}

/// `pbkdf2::verify` with `PBKDF2_HMAC_SHA512`: `Ok` exactly where
/// `previously_derived` is not empty and is the key of its own length derived
/// from the other arguments.
#[verifier::external_body]
fn pbkdf2_verify(
    rounds: u32,
    salt: &[u8],
    secret: &[u8],
    previously_derived: &[u8],
) -> (outcome: Result<(), Unspecified>)
    requires
        rounds > 0,
        salt@.len() <= MAX_DIGEST_INPUT,
        secret@.len() <= MAX_DIGEST_INPUT,
        previously_derived@.len() <= MAX_DERIVED_LEN,
    ensures
        outcome is Ok <==> is_derived_key(rounds, salt@, secret@, previously_derived@),
{
    let rounds = NonZeroU32::new(rounds).unwrap();
    pbkdf2::verify(pbkdf2::PBKDF2_HMAC_SHA512, rounds, salt, secret, previously_derived)
}

/// Signs `message` under `key_value` and verifies the tag as the receiver
/// would, with a key of its own made of the same value. The tag always
/// verifies, and is returned.
pub fn sign_and_verify(key_value: &[u8], message: &[u8]) -> (signed: Result<Vec<u8>, CryptoError>)
    requires
        key_value@.len() <= MAX_DIGEST_INPUT,
        message@.len() <= MAX_DIGEST_INPUT,
    ensures
        signed is Ok,
        signed->Ok_0@ == hmac_sha256(key_value@, message@),
{
    let signature = hmac_sign(key_value, message);
    match hmac_verify(key_value, message, signature.as_slice()) {
        Ok(_) => Ok(signature),
        Err(_) => Err(CryptoError::BadSignature),
    }
}

/// Draws a random key, signs the fixed message with it and verifies the
/// signature. Whatever the key, the signature verifies: the one failure is
/// that of the random number generator.
pub fn sign_message() -> (done: Result<(), CryptoError>)
    ensures
        done is Err ==> done == Err::<(), CryptoError>(CryptoError::NoRandomness),
{
    sign_with(random_bytes(KEY_LEN))
}

/// What `sign_message` makes of what the random number generator gave: with
/// a key, the fixed message is signed and the signature verified, which
/// always succeeds; without one, the failure is reported as `NoRandomness`.
pub fn sign_with(drawn: Result<Vec<u8>, Unspecified>) -> (done: Result<(), CryptoError>)
    requires
        drawn is Ok ==> drawn->Ok_0@.len() <= MAX_DIGEST_INPUT,
    ensures
        done is Ok <==> drawn is Ok,
        done is Err ==> done == Err::<(), CryptoError>(CryptoError::NoRandomness),
{
    let key_value = match drawn {
        Ok(bytes) => bytes,
        Err(_) => {
            return Err(CryptoError::NoRandomness);
        },
    };
    let message = "Legitimate and important message.";
    proof {
        reveal_strlit("Legitimate and important message.");
        lemma_bytes_of_short_text(message@);
    }
    match sign_and_verify(key_value.as_slice(), message.as_bytes()) {
        Ok(_) => Ok(()),
        Err(e) => Err(e),
    }
}

/// Hashes `password` under `salt`, then checks that the hash verifies against
/// `password` and does not against `wrong_password`.
///
/// The hash is returned where `wrong_password` derives another key than
/// `password`; where both derive the same key the outcome is
/// `WrongPasswordAccepted`.
pub fn hash_and_verify(
    salt: &[u8],
    password: &[u8],
    wrong_password: &[u8],
) -> (hashed: Result<Vec<u8>, CryptoError>)
    requires
        salt@.len() <= MAX_DIGEST_INPUT,
        password@.len() <= MAX_DIGEST_INPUT,
        wrong_password@.len() <= MAX_DIGEST_INPUT,
    ensures
        match hashed {
            Ok(hash) => {
                &&& hash@.len() == CREDENTIAL_LEN
                &&& hash@ == pbkdf2_hmac_sha512(
                    PBKDF2_ROUNDS,
                    salt@,
                    password@,
                    CREDENTIAL_LEN as nat,
                )
                &&& hash@ != pbkdf2_hmac_sha512(
                    PBKDF2_ROUNDS,
                    salt@,
                    wrong_password@,
                    CREDENTIAL_LEN as nat,
                )
            },
            Err(e) => {
                &&& e == CryptoError::WrongPasswordAccepted
                &&& pbkdf2_hmac_sha512(PBKDF2_ROUNDS, salt@, password@, CREDENTIAL_LEN as nat)
                    == pbkdf2_hmac_sha512(
                    PBKDF2_ROUNDS,
                    salt@,
                    wrong_password@,
                    CREDENTIAL_LEN as nat,
                )
            },
        },
{
    let pbkdf2_hash = pbkdf2_derive(PBKDF2_ROUNDS, salt, password, CREDENTIAL_LEN);
    let should_succeed = pbkdf2_verify(PBKDF2_ROUNDS, salt, password, pbkdf2_hash.as_slice());
    let should_fail = pbkdf2_verify(PBKDF2_ROUNDS, salt, wrong_password, pbkdf2_hash.as_slice());
    if should_succeed.is_err() {
        Err(CryptoError::BadHash)
    } else if should_fail.is_ok() {
        Err(CryptoError::WrongPasswordAccepted)
    } else {
        Ok(pbkdf2_hash)
    }
}

/// Draws a random salt and hashes the fixed password under it; the hash
/// verifies against that password, and the fixed wrong password is turned
/// away.
///
/// Fails with `NoRandomness` where the random number generator does, and
/// with `WrongPasswordAccepted` where the two passwords derive one key.
pub fn salt_hash_password() -> (done: Result<Credential, CryptoError>)
    ensures
        match done {
            Ok(credential) => {
                &&& credential.salt@.len() == CREDENTIAL_LEN
                &&& credential.hash@.len() == CREDENTIAL_LEN
                &&& credential.hash@ == pbkdf2_hmac_sha512(
                    PBKDF2_ROUNDS,
                    credential.salt@,
                    encoded(password_text()),
                    CREDENTIAL_LEN as nat,
                )
            },
            Err(e) => e == CryptoError::NoRandomness || e == CryptoError::WrongPasswordAccepted,
        },
{
    let salt = match random_bytes(CREDENTIAL_LEN) {
        Ok(bytes) => bytes,
        Err(_) => {
            return Err(CryptoError::NoRandomness);
        },
    };
    let password = "Guess Me If You Can!";
    let wrong_password = "Definitely not the correct password";
    proof {
        reveal_strlit("Guess Me If You Can!");
        reveal_strlit("Definitely not the correct password");
        lemma_bytes_of_short_text(password@);
        lemma_bytes_of_short_text(wrong_password@);
    }
    match hash_and_verify(salt.as_slice(), password.as_bytes(), wrong_password.as_bytes()) {
        Ok(hash) => Ok(Credential { salt, hash }),
        Err(e) => Err(e),
    }
}

/// The UTF-8 bytes of `text`.
pub open spec fn encoded(text: Seq<char>) -> Seq<u8> {
    vstd::utf8::encode_utf8(text)
}

/// A text takes at most four bytes for each character.
pub proof fn lemma_bytes_of_short_text(text: Seq<char>)
    ensures
        encoded(text).len() <= 4 * text.len(),
    decreases text.len(),
{
    if text.len() > 0 {
        lemma_bytes_of_short_text(text.drop_first());
    }
}

/// `ring::digest::Context`, a digest in the making.
#[verifier::external_type_specification]
#[verifier::external_body]
pub struct ExContext(Context);

/// The SHA-256 digest of `data`.
pub uninterp spec fn sha256(data: Seq<u8>) -> Seq<u8>;

/// The bytes that `context` has taken in so far, in order.
pub uninterp spec fn taken_in(context: Context) -> Seq<u8>;

/// `Context::new` for `SHA256`: a context that has taken in nothing.
#[verifier::external_body]
fn context_new() -> (context: Context)
    ensures
        taken_in(context) == Seq::<u8>::empty(),
{
    Context::new(&SHA256)
}

/// `Context::update`: the context takes in `data` after what it has.
#[verifier::external_body]
fn context_update(context: &mut Context, data: &[u8])
    ensures
        taken_in(*final(context)) == taken_in(*old(context)) + data@,
{
    context.update(data)
}

/// `Context::finish`: the digest of all that the context has taken in.
#[verifier::external_body]
fn context_finish(context: Context) -> (digest: Vec<u8>)
    requires
        taken_in(context).len() <= MAX_DIGEST_INPUT,
    ensures
        digest@ == sha256(taken_in(context)),
{
    context.finish().as_ref().to_vec()
}

/// A SHA-256 digest in the making, which counts what it takes in.
pub struct Sha256 {
    context: Context,
    count: u64,
}

impl Sha256 {
    /// The bytes taken in so far.
    pub closed spec fn data(self) -> Seq<u8> {
        taken_in(self.context)
    }

    /// The count is that of the bytes taken in, and within the limit.
    pub closed spec fn well_formed(self) -> bool {
        self.count == taken_in(self.context).len() && self.count <= MAX_DIGEST_INPUT
    }

    /// A digest of nothing yet.
    pub fn new() -> (hasher: Self)
        ensures
            hasher.well_formed(),
            hasher.data() == Seq::<u8>::empty(),
    {
        Sha256 { context: context_new(), count: 0 }
    }

    /// Takes in `data`, unless that would be more than a digest is taken of:
    /// then nothing is taken in, and the answer is `false`.
    pub fn update(&mut self, data: &[u8]) -> (taken: bool)
        requires
            old(self).well_formed(),
        ensures
            final(self).well_formed(),
            taken <==> old(self).data().len() + data@.len() <= MAX_DIGEST_INPUT,
            taken ==> final(self).data() == old(self).data() + data@,
            !taken ==> final(self).data() == old(self).data(),
    {
        let len = data.len() as u64;
        if len > MAX_DIGEST_INPUT - self.count {
            return false;
        }
        context_update(&mut self.context, data);
        self.count = self.count + len;
        true
    }

    /// The digest of all that was taken in.
    pub fn finish(self) -> (digest: Vec<u8>)
        requires
            self.well_formed(),
        ensures
            digest@ == sha256(self.data()),
    {
        context_finish(self.context)
    }
}

/// The bytes of all of `chunks`, one chunk after the other.
pub open spec fn joined(chunks: Seq<Vec<u8>>) -> Seq<u8>
    decreases chunks.len(),
{
    if chunks.len() == 0 {
        seq![]
    } else {
        joined(chunks.drop_last()) + chunks.last()@
    }
}

/// The SHA-256 digest of data that comes in chunks: the digest of the
/// chunks joined. `None` where they hold more than a digest is taken of.
pub fn digest_of_chunks(chunks: &Vec<Vec<u8>>) -> (digest: Option<Vec<u8>>)
    ensures
        digest is Some <==> joined(chunks@).len() <= MAX_DIGEST_INPUT,
        digest is Some ==> digest->0@ == sha256(joined(chunks@)),
{
    let mut hasher = Sha256::new();
    let mut i: usize = 0;
    proof {
        assert(chunks@.take(0) =~= Seq::<Vec<u8>>::empty());
    }
    while i < chunks.len()
        invariant
            i <= chunks.len(),
            hasher.well_formed(),
            hasher.data() == joined(chunks@.take(i as int)),
        decreases chunks.len() - i,
    {
        proof {
            assert(chunks@.take(i + 1).drop_last() =~= chunks@.take(i as int));
            lemma_joined_grows(chunks@, i + 1);
        }
        if !hasher.update(chunks[i].as_slice()) {
            return None;
        }
        i = i + 1;
    }
    proof {
        assert(chunks@.take(chunks@.len() as int) =~= chunks@);
    }
    Some(hasher.finish())
}

/// What the first chunks hold is no more than what all hold.
pub proof fn lemma_joined_grows(chunks: Seq<Vec<u8>>, upto: int)
    requires
        0 <= upto <= chunks.len(),
    ensures
        joined(chunks.take(upto)).len() <= joined(chunks).len(),
    decreases chunks.len() - upto,
{
    if upto == chunks.len() {
        assert(chunks.take(upto) =~= chunks);
    } else {
        lemma_joined_grows(chunks, upto + 1);
        assert(chunks.take(upto + 1).drop_last() =~= chunks.take(upto));
    }
}

} // verus!
