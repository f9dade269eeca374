use flying::mode::{determine_connection_mode, ConnectionMode};
use flying::progress::ProgressTracker;
use flying::wire::{be_to_u64, bytes_equal, u64_to_be};

#[test]
fn progress_reports_are_monotone_and_deduplicated() {
    let mut tracker = ProgressTracker::new();
    assert_eq!(tracker.update(10, 100), Some(10));
    assert_eq!(tracker.update(10, 100), None);
    assert_eq!(tracker.update(9, 100), None);
    assert_eq!(tracker.update(25, 100), Some(25));
    assert_eq!(tracker.update(100, 100), Some(100));
    assert_eq!(tracker.update(100, 100), None);
    assert_eq!(tracker.finish(), 100);
}

#[test]
fn progress_percentage_rounds_down() {
    let mut tracker = ProgressTracker::new();
    assert_eq!(tracker.update(1, 3), Some(33));
    assert_eq!(tracker.update(2, 3), Some(66));
}

#[test]
fn zero_bytes_is_zero_percent() {
    let mut tracker = ProgressTracker::new();
    assert_eq!(tracker.update(0, 5), None);
    assert_eq!(tracker.last_percent, 0);
}

#[test]
fn u64_big_endian_encoding() {
    let bytes = u64_to_be(0x0102030405060708);
    assert_eq!(bytes, vec![1, 2, 3, 4, 5, 6, 7, 8]);
    assert_eq!(be_to_u64(&bytes), 0x0102030405060708);
    assert_eq!(u64_to_be(0), vec![0u8; 8]);
    assert_eq!(be_to_u64(&u64_to_be(u64::MAX)), u64::MAX);
}

#[test]
fn byte_equality_is_exact() {
    assert!(bytes_equal(&vec![1, 2, 3], &vec![1, 2, 3]));
    assert!(!bytes_equal(&vec![1, 2, 3], &vec![1, 2, 4]));
    assert!(!bytes_equal(&vec![1, 2], &vec![1, 2, 3]));
    assert!(bytes_equal(&Vec::new(), &Vec::new()));
}

#[test]
fn connect_address_wins_over_listen() {
    let mode = determine_connection_mode(true, Some("192.168.1.9".to_string()));
    assert!(matches!(mode, ConnectionMode::Connect(a) if a == "192.168.1.9"));
}

#[test]
fn listen_flag_selects_listen_mode() {
    assert!(matches!(determine_connection_mode(true, None), ConnectionMode::Listen));
}

#[test]
fn default_is_auto_discovery() {
    assert!(matches!(determine_connection_mode(false, None), ConnectionMode::AutoDiscover));
}
