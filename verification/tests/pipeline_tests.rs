use flying::crypto::get_key_from_password;
use flying::pipeline::{open_stream, seal_stream_fresh};
use flying::TransferError;

fn key() -> Vec<u8> {
    get_key_from_password("correct horse battery staple")
}

fn round_trip(plaintext: Vec<u8>) {
    let key = key();
    let sealed = seal_stream_fresh(&key, &plaintext).expect("sealing should succeed");
    let (opened, consumed) = open_stream(&key, &sealed, 0).expect("opening should succeed");
    assert_eq!(opened, plaintext);
    assert_eq!(consumed, sealed.len());
}

#[test]
fn round_trip_empty() {
    round_trip(Vec::new());
}

#[test]
fn round_trip_small() {
    round_trip(b"hello world".to_vec());
}

#[test]
fn round_trip_one_byte() {
    round_trip(vec![0x42]);
}

#[test]
fn round_trip_exactly_one_chunk() {
    let plaintext: Vec<u8> = (0..1048576u32).map(|i| (i % 251) as u8).collect();
    round_trip(plaintext);
}

#[test]
fn round_trip_exact_chunk_multiple() {
    let plaintext: Vec<u8> = (0..2 * 1048576u32).map(|i| (i.wrapping_mul(31) >> 3) as u8).collect();
    round_trip(plaintext);
}

#[test]
fn round_trip_chunk_plus_one() {
    let plaintext: Vec<u8> = (0..1048577u32).map(|i| (i % 13) as u8).collect();
    round_trip(plaintext);
}

#[test]
fn empty_plaintext_is_just_the_end_frame() {
    let key = key();
    let sealed = seal_stream_fresh(&key, &Vec::new()).unwrap();
    assert_eq!(sealed, vec![0u8; 8]);
}

#[test]
fn open_ignores_trailing_bytes() {
    let key = key();
    let plaintext = b"payload before other traffic".to_vec();
    let mut sealed = seal_stream_fresh(&key, &plaintext).unwrap();
    let sealed_len = sealed.len();
    sealed.extend_from_slice(b"next file's bytes");
    let (opened, consumed) = open_stream(&key, &sealed, 0).unwrap();
    assert_eq!(opened, plaintext);
    assert_eq!(consumed, sealed_len);
}

#[test]
fn open_at_offset() {
    let key = key();
    let plaintext = b"not at the start".to_vec();
    let sealed = seal_stream_fresh(&key, &plaintext).unwrap();
    let mut buffer = vec![0xEEu8; 5];
    buffer.extend_from_slice(&sealed);
    let (opened, consumed) = open_stream(&key, &buffer, 5).unwrap();
    assert_eq!(opened, plaintext);
    assert_eq!(consumed, sealed.len());
}

#[test]
fn wrong_key_fails_authentication() {
    let key = key();
    let other = get_key_from_password("some other password");
    let sealed = seal_stream_fresh(&key, &b"secret".to_vec()).unwrap();
    assert_eq!(open_stream(&other, &sealed, 0), Err(TransferError::CryptoFailure));
}

#[test]
fn frame_layout_matches_the_wire_format() {
    let key = key();
    let plaintext = vec![7u8; 100];
    let sealed = seal_stream_fresh(&key, &plaintext).unwrap();
    // One frame: 8-byte length, 12-byte nonce, ciphertext + 16-byte tag,
    // then the 8-byte zero end-of-file frame.
    assert_eq!(sealed.len(), 8 + 12 + 100 + 16 + 8);
    let declared = u64::from_be_bytes(sealed[0..8].try_into().unwrap());
    assert_eq!(declared, 12 + 100 + 16);
    assert_eq!(&sealed[sealed.len() - 8..], &[0u8; 8]);
}
