//! Cryptographic primitives of the session, behind trusted contracts.
//!
//! The session key is the SHA-256 digest of the shared password.  Chunks
//! are sealed with AES-256-GCM under a fresh 96-bit random nonce each, and
//! opened (authenticated and decrypted) on the receiving side.  The digest
//! and the sealing function are named, not written out: `sha256_of` and
//! `gcm_seal` stand for what the outside implementations compute, and every
//! contract in the crate speaks of those names.

use aes_gcm::aead::Aead;
use aes_gcm::aead::KeyInit;
use sha2::Digest;
use vstd::prelude::*;
use vstd::string::StringSliceAdditionalSpecFns;

verus! {

/// Session key length in bytes: a 256-bit symmetric key.
pub const KEY_LEN: usize = 32;

/// Nonce length in bytes: a 96-bit value, fresh for every chunk.
pub const NONCE_LEN: usize = 12;

/// Authentication tag length in bytes, appended to each chunk's ciphertext.
pub const TAG_LEN: usize = 16;

/// Most plaintext bytes one encrypted chunk may carry: 1 MiB.
pub const CHUNK_SIZE: usize = 1048576;

/// The SHA-256 digest of a byte sequence.
pub uninterp spec fn sha256_of(data: Seq<u8>) -> Seq<u8>;

/// The AES-256-GCM sealing function of NIST SP 800-38D: ciphertext with
/// the 16-byte authentication tag appended, for a 32-byte key and a
/// 12-byte nonce.  This is one mathematical function of its three
/// arguments; ring computes it on the sealing side and aes_gcm inverts
/// it on the opening side, so both trusted wrappers below speak of this
/// one name.
pub uninterp spec fn gcm_seal(key: Seq<u8>, nonce: Seq<u8>, plaintext: Seq<u8>) -> Seq<u8>;

/// Relies on sha2's `Sha256` (the `Digest` interface): the digest is a
/// function of the input bytes alone and is 32 bytes long.
#[verifier::external_body]
fn sha256(data: &[u8]) -> (r: Vec<u8>)
    ensures
        r@ == sha256_of(data@),
        r@.len() == 32,
{
    sha2::Sha256::digest(data).to_vec()
}

/// Relies on ring's `LessSafeKey::seal_in_place_append_tag` with
/// `AES_256_GCM`: for a 32-byte key, a 12-byte nonce and a plaintext
/// within GCM's input bound (far above the 1 MiB chunk bound), key and
/// nonce construction and sealing all succeed, and sealing appends the
/// 16-byte tag; the result is `gcm_seal` of key, nonce and plaintext,
/// a function of those three alone.
#[verifier::external_body]
fn seal_chunk_bytes(key: &[u8], nonce: &[u8], plaintext: &[u8]) -> (r: Vec<u8>)
    requires
        key@.len() == KEY_LEN,
        nonce@.len() == NONCE_LEN,
        plaintext@.len() <= CHUNK_SIZE,
    ensures
        r@ == gcm_seal(key@, nonce@, plaintext@),
        r@.len() == plaintext@.len() + TAG_LEN,
{
    let unbound = ring::aead::UnboundKey::new(&ring::aead::AES_256_GCM, key).unwrap();
    let sealing = ring::aead::LessSafeKey::new(unbound);
    let nonce = ring::aead::Nonce::try_assume_unique_for_key(nonce).unwrap();
    let mut buf: Vec<u8> = plaintext.to_vec();
    sealing.seal_in_place_append_tag(nonce, ring::aead::Aad::empty(), &mut buf).unwrap();
    buf
}

/// Relies on aes_gcm's `Aes256Gcm::decrypt`: it returns a plaintext
/// exactly when the ciphertext is an authentic AES-256-GCM sealing under
/// this key and nonce, and fails otherwise (tag verification failure).
/// GCM decryption inverts `gcm_seal`: what comes back is the unique
/// chunk-sized plaintext sealing to these bytes, never anything else.
#[verifier::external_body]
fn open_chunk_bytes(key: &[u8], nonce: &[u8], ciphertext: &[u8]) -> (r: Option<Vec<u8>>)
    requires
        key@.len() == KEY_LEN,
        nonce@.len() == NONCE_LEN,
    ensures
        r matches Some(p) ==> ciphertext@ == gcm_seal(key@, nonce@, p@)
            && p@.len() + TAG_LEN == ciphertext@.len(),
        r matches Some(p) ==> forall|p2: Seq<u8>|
            p2.len() <= CHUNK_SIZE && ciphertext@ == #[trigger] gcm_seal(key@, nonce@, p2)
                ==> p2 == p@,
        r is None ==> forall|p2: Seq<u8>|
            p2.len() <= CHUNK_SIZE
                ==> ciphertext@ != #[trigger] gcm_seal(key@, nonce@, p2),
{
    let cipher = match aes_gcm::Aes256Gcm::new_from_slice(key) {
        Ok(c) => c,
        Err(_) => { return None; },
    };
    let nonce = match aes_gcm::Nonce::try_from(nonce) {
        Ok(n) => n,
        Err(_) => { return None; },
    };
    cipher.decrypt(&nonce, ciphertext).ok()
}

/// Relies on ring's `rand::generate` over `SystemRandom`: 12 bytes of
/// fresh randomness, or nothing if the system generator fails.  Nothing
/// further can be promised of a random value.
#[verifier::external_body]
fn random_nonce_bytes() -> (r: Option<Vec<u8>>)
    ensures
        r matches Some(n) ==> n@.len() == NONCE_LEN,
{
    let rng = ring::rand::SystemRandom::new();
    match ring::rand::generate::<[u8; 12]>(&rng) {
        Ok(v) => Some(v.expose().to_vec()),
        Err(_) => None,
    }
}

/// Derive the 256-bit session key from the shared password: the SHA-256
/// digest of the password's bytes.  Identical passwords yield identical
/// keys on both peers; the key is never transmitted.
pub fn get_key_from_password(password: &str) -> (r: Vec<u8>)
    ensures
        r@ == sha256_of(password.spec_bytes()),
        r@.len() == KEY_LEN,
{
    sha256(password.as_bytes())
}

/// The SHA-256 content digest of a file's bytes, as used by duplicate
/// detection: 32 bytes, a function of the content alone.
pub fn hash_file(content: &[u8]) -> (r: Vec<u8>)
    ensures
        r@ == sha256_of(content@),
        r@.len() == 32,
{
    sha256(content)
}

/// Draw a fresh random nonce for one chunk.
pub fn fresh_nonce() -> (r: Option<Vec<u8>>)
    ensures
        r matches Some(n) ==> n@.len() == NONCE_LEN,
{
    random_nonce_bytes()
}

/// Seal one plaintext chunk under the session key and a fresh nonce:
/// ciphertext with the authentication tag appended.
pub fn seal_chunk(key: &[u8], nonce: &[u8], plaintext: &[u8]) -> (r: Vec<u8>)
    requires
        key@.len() == KEY_LEN,
        nonce@.len() == NONCE_LEN,
        plaintext@.len() <= CHUNK_SIZE,
    ensures
        r@ == gcm_seal(key@, nonce@, plaintext@),
        r@.len() == plaintext@.len() + TAG_LEN,
{
    seal_chunk_bytes(key, nonce, plaintext)
}

/// Open one chunk's ciphertext-plus-tag.  Success returns exactly the
/// sealed plaintext; an inauthentic chunk (any corruption or tampering)
/// returns nothing, and never a corrupted plaintext.
pub fn open_chunk(key: &[u8], nonce: &[u8], ciphertext: &[u8]) -> (r: Option<Vec<u8>>)
    requires
        key@.len() == KEY_LEN,
        nonce@.len() == NONCE_LEN,
    ensures
        r matches Some(p) ==> ciphertext@ == gcm_seal(key@, nonce@, p@)
            && p@.len() + TAG_LEN == ciphertext@.len(),
        forall|p: Seq<u8>|
            p.len() <= CHUNK_SIZE && ciphertext@ == #[trigger] gcm_seal(key@, nonce@, p)
                ==> (r matches Some(q) && q@ == p),
{
    let r = open_chunk_bytes(key, nonce, ciphertext);
    proof {
        assert forall|p: Seq<u8>|
            p.len() <= CHUNK_SIZE && ciphertext@ == #[trigger] gcm_seal(key@, nonce@, p)
                implies (r matches Some(q) && q@ == p) by {
            assert(!(r is None));
        }
    }
    r
}

} // verus!
