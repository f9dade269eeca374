use flying::naming::{name_taken, numbered_name, resolve_collision, u64_to_decimal};

fn names(list: &[&str]) -> Vec<Vec<u8>> {
    list.iter().map(|s| s.as_bytes().to_vec()).collect()
}

#[test]
fn decimal_rendering() {
    assert_eq!(u64_to_decimal(0), b"0".to_vec());
    assert_eq!(u64_to_decimal(7), b"7".to_vec());
    assert_eq!(u64_to_decimal(10), b"10".to_vec());
    assert_eq!(u64_to_decimal(409), b"409".to_vec());
}

#[test]
fn numbered_name_rendering() {
    let name = b"data.bin".to_vec();
    assert_eq!(numbered_name(12, &name), b"(12) data.bin".to_vec());
}

#[test]
fn free_name_is_kept() {
    let taken = names(&["other.txt"]);
    let name = b"report.txt".to_vec();
    assert_eq!(resolve_collision(&name, &taken), b"report.txt".to_vec());
}

#[test]
fn first_collision_gets_counter_one() {
    let taken = names(&["report.txt"]);
    let name = b"report.txt".to_vec();
    assert_eq!(resolve_collision(&name, &taken), b"(1) report.txt".to_vec());
}

#[test]
fn second_collision_gets_counter_two() {
    let taken = names(&["report.txt", "(1) report.txt"]);
    let name = b"report.txt".to_vec();
    assert_eq!(resolve_collision(&name, &taken), b"(2) report.txt".to_vec());
}

#[test]
fn gaps_are_filled_with_the_first_free_counter() {
    let taken = names(&["report.txt", "(2) report.txt"]);
    let name = b"report.txt".to_vec();
    assert_eq!(resolve_collision(&name, &taken), b"(1) report.txt".to_vec());
}

#[test]
fn name_taken_compares_exact_bytes() {
    let taken = names(&["a", "ab"]);
    assert!(name_taken(&taken, &b"ab".to_vec()));
    assert!(!name_taken(&taken, &b"abc".to_vec()));
}
