use flying::crypto::get_key_from_password;
use flying::pipeline::{open_stream, seal_stream_fresh};
use flying::TransferError;

fn key() -> Vec<u8> {
    get_key_from_password("tamper detection")
}

#[test]
fn flipping_any_ciphertext_or_tag_bit_is_caught() {
    let key = key();
    let plaintext = b"thirty-two bytes of file content".to_vec();
    let sealed = seal_stream_fresh(&key, &plaintext).unwrap();
    // The first frame's ciphertext-plus-tag spans from after the length
    // prefix and nonce up to the final zero frame.
    let ct_start = 8 + 12;
    let ct_end = sealed.len() - 8;
    for byte in ct_start..ct_end {
        for bit in 0..8 {
            let mut corrupted = sealed.clone();
            corrupted[byte] ^= 1 << bit;
            assert_eq!(
                open_stream(&key, &corrupted, 0),
                Err(TransferError::CryptoFailure),
                "a flipped bit in byte {byte} went undetected"
            );
        }
    }
}

#[test]
fn flipping_a_nonce_bit_is_caught() {
    let key = key();
    let sealed = seal_stream_fresh(&key, &b"nonce matters".to_vec()).unwrap();
    for bit in 0..8 {
        let mut corrupted = sealed.clone();
        corrupted[8] ^= 1 << bit;
        assert_eq!(open_stream(&key, &corrupted, 0), Err(TransferError::CryptoFailure));
    }
}

#[test]
fn truncated_stream_ends_prematurely() {
    let key = key();
    let sealed = seal_stream_fresh(&key, &b"cut short".to_vec()).unwrap();
    let truncated: Vec<u8> = sealed[..sealed.len() - 12].to_vec();
    assert_eq!(open_stream(&key, &truncated, 0), Err(TransferError::PrematureEnd));
}

#[test]
fn empty_stream_ends_prematurely() {
    let key = key();
    assert_eq!(open_stream(&key, &Vec::new(), 0), Err(TransferError::PrematureEnd));
}

#[test]
fn header_shorter_than_eight_bytes_ends_prematurely() {
    let key = key();
    assert_eq!(open_stream(&key, &vec![0u8; 5], 0), Err(TransferError::PrematureEnd));
}

#[test]
fn length_prefix_below_nonce_and_tag_is_malformed() {
    let key = key();
    let mut stream = 5u64.to_be_bytes().to_vec();
    stream.extend_from_slice(&[1, 2, 3, 4, 5]);
    assert_eq!(open_stream(&key, &stream, 0), Err(TransferError::MalformedFrame));
}

#[test]
fn length_prefix_beyond_chunk_bound_is_malformed() {
    let key = key();
    let stream = (12 + 16 + 1048576 + 1u64).to_be_bytes().to_vec();
    assert_eq!(open_stream(&key, &stream, 0), Err(TransferError::MalformedFrame));
}

#[test]
fn missing_end_frame_ends_prematurely() {
    let key = key();
    let sealed = seal_stream_fresh(&key, &b"no goodbye".to_vec()).unwrap();
    let without_end: Vec<u8> = sealed[..sealed.len() - 8].to_vec();
    assert_eq!(open_stream(&key, &without_end, 0), Err(TransferError::PrematureEnd));
}
