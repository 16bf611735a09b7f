use layout_planner::random::{random_bytes, random_float, random_int, random_int_range};

#[test]
fn test_random_int_range_bounds() {
    for _ in 0..100 {
        let v = random_int_range(3, 7);
        assert!((3..7).contains(&v));
    }
}

#[test]
fn test_random_int_range_empty() {
    assert_eq!(random_int_range(7, 3), 0);
    assert_eq!(random_int_range(5, 5), 0);
}

#[test]
fn test_random_float_precision() {
    for _ in 0..100 {
        assert!(random_float() < 1u64 << 53);
    }
}

#[test]
fn test_random_bytes_length() {
    let bytes = random_bytes(32).unwrap();
    assert_eq!(bytes.len(), 32);
    assert!(random_bytes(0).unwrap().is_empty());
}

#[test]
fn test_random_int_draws() {
    // Two draws of a 64-bit value almost surely differ; mostly this checks
    // that the call goes through.
    let a = random_int();
    let b = random_int();
    let c = random_int();
    let _ = a.wrapping_add(b).wrapping_add(c);
}
