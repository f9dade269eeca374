//! The whole session logic run in memory: handshake, transfer, then a
//! second run skipped by duplicate detection.

use flying::crypto::{get_key_from_password, hash_file};
use flying::dedup::{
    digests_match, receiver_candidate_flag, match_verdict, needs_transfer,
    candidate_announced,
};
use flying::handshake::{Handshake, Role};
use flying::pipeline::{open_stream, seal_stream_fresh};
use flying::progress::ProgressTracker;

#[test]
fn three_mib_file_with_password_abc() {
    // Both peers derive the session key from the shared password alone.
    let sender_key = get_key_from_password("abc");
    let receiver_key = get_key_from_password("abc");
    assert_eq!(sender_key, receiver_key);

    // Handshake: the receiver leads, one sender and one receiver.
    let mut sender = Handshake::new(3, Role::Sender, false);
    let mut receiver = Handshake::new(3, Role::Receiver, true);
    assert!(!sender.record_peer_version(receiver.version_message()));
    assert!(!receiver.record_peer_version(sender.version_message()));
    let sender_flag = sender.role_message();
    let receiver_flag = receiver.role_message();
    assert!(sender.record_peer_role(receiver_flag).is_ok());
    assert!(receiver.record_peer_role(sender_flag).is_ok());
    assert!(sender.ready() && receiver.ready());

    // A 3 MiB file.
    let file: Vec<u8> = (0..3 * 1048576u32).map(|i| (i.wrapping_mul(2654435761) >> 13) as u8).collect();
    assert_eq!(file.len(), 3 * 1048576);
    assert_eq!(humansize::format_size(file.len() as u64, humansize::BINARY), "3 MiB");

    // First run: the receiver holds no such file, so the transfer goes
    // ahead and reproduces the bytes exactly.
    let flag = receiver_candidate_flag(false, 0, file.len() as u64);
    assert_eq!(flag, 0);
    assert!(!candidate_announced(flag));
    let sealed = seal_stream_fresh(&sender_key, &file).unwrap();
    let mut progress = ProgressTracker::new();
    assert_eq!(progress.update(file.len() as u64 / 2, file.len() as u64), Some(50));
    let (received, consumed) = open_stream(&receiver_key, &sealed, 0).unwrap();
    assert_eq!(consumed, sealed.len());
    assert_eq!(received, file);
    assert_eq!(progress.finish(), 100);

    // Second run: same name, same size, same digest — fully skipped.
    let flag = receiver_candidate_flag(true, received.len() as u64, file.len() as u64);
    assert_eq!(flag, 1);
    assert!(candidate_announced(flag));
    let equal = digests_match(&hash_file(&file), &hash_file(&received));
    assert!(equal);
    let (match_flag, receiver_needs) = match_verdict(equal);
    assert_eq!(match_flag, 1);
    assert!(!receiver_needs);
    assert!(!needs_transfer(match_flag));
}

#[test]
fn wrong_password_cannot_read_the_stream() {
    let sealed = seal_stream_fresh(&get_key_from_password("abc"), &b"secret file".to_vec()).unwrap();
    assert!(open_stream(&get_key_from_password("abd"), &sealed, 0).is_err());
}
