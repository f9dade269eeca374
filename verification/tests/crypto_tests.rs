use sha2::Digest;

use flying::crypto::{fresh_nonce, get_key_from_password, hash_file};

#[test]
fn key_is_the_sha256_of_the_password() {
    let key = get_key_from_password("abc");
    let expected = sha2::Sha256::digest(b"abc");
    assert_eq!(key.len(), 32);
    assert_eq!(key.as_slice(), expected.as_slice());
}

#[test]
fn same_password_same_key_on_both_peers() {
    assert_eq!(get_key_from_password("shared"), get_key_from_password("shared"));
}

#[test]
fn different_passwords_give_different_keys() {
    assert_ne!(get_key_from_password("one"), get_key_from_password("two"));
}

#[test]
fn file_hash_is_the_sha256_of_the_content() {
    let content = b"file content under test";
    let digest = hash_file(content);
    let expected = sha2::Sha256::digest(content);
    assert_eq!(digest.len(), 32);
    assert_eq!(digest.as_slice(), expected.as_slice());
}

#[test]
fn empty_file_hash_matches() {
    assert_eq!(hash_file(b"").as_slice(), sha2::Sha256::digest(b"").as_slice());
}

#[test]
fn nonces_do_not_repeat_across_a_large_sample() {
    let mut nonces: Vec<Vec<u8>> = Vec::new();
    for _ in 0..2000 {
        let nonce = fresh_nonce().expect("system randomness should be available");
        assert_eq!(nonce.len(), 12);
        nonces.push(nonce);
    }
    nonces.sort();
    for pair in nonces.windows(2) {
        assert_ne!(pair[0], pair[1], "a 96-bit nonce repeated");
    }
}
