use flying::crypto::hash_file;
use flying::dedup::{
    digests_match, receiver_candidate_flag, match_verdict, needs_transfer,
    candidate_announced,
};

#[test]
fn identical_files_skip_the_transfer() {
    let content = b"same bytes on both ends".to_vec();
    let flag = receiver_candidate_flag(true, content.len() as u64, content.len() as u64);
    assert_eq!(flag, 1);
    assert!(candidate_announced(flag));
    let receiver_digest = hash_file(&content);
    let sender_digest = hash_file(&content);
    let equal = digests_match(&sender_digest, &receiver_digest);
    assert!(equal);
    let (match_flag, receiver_needs) = match_verdict(equal);
    assert_eq!(match_flag, 1);
    assert!(!receiver_needs);
    assert!(!needs_transfer(match_flag));
}

#[test]
fn same_size_different_content_transfers() {
    let local = b"content version A".to_vec();
    let remote = b"content version B".to_vec();
    let flag = receiver_candidate_flag(true, local.len() as u64, remote.len() as u64);
    assert_eq!(flag, 1);
    let equal = digests_match(&hash_file(&local), &hash_file(&remote));
    assert!(!equal);
    let (match_flag, receiver_needs) = match_verdict(equal);
    assert_eq!(match_flag, 0);
    assert!(receiver_needs);
    assert!(needs_transfer(match_flag));
}

#[test]
fn different_sizes_transfer_without_any_digest() {
    // The candidate decision is made from the sizes alone; no digest is
    // ever computed on this path.
    let flag = receiver_candidate_flag(true, 100, 250);
    assert_eq!(flag, 0);
    assert!(!candidate_announced(flag));
}

#[test]
fn missing_file_transfers() {
    let flag = receiver_candidate_flag(false, 100, 100);
    assert_eq!(flag, 0);
    assert!(!candidate_announced(flag));
}
