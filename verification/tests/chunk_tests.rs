use pikpak::chunk::ChunkRange;
use pikpak::text::{parse_u64, u64_to_decimal};

#[test]
fn test_from_len_roundtrip() {
    // For a valid (start, len), from_len inverts len() and ends at
    // start + len - 1.
    let r = ChunkRange::from_len(0, 22);
    assert_eq!(r.start, 0);
    assert_eq!(r.end, 21);
    assert_eq!(r.len(), 22);

    let r = ChunkRange::from_len(10, 5);
    assert_eq!(r.end, 14);
    assert_eq!(r.len(), 5);

    let r = ChunkRange::from_len(7, 1);
    assert_eq!(r.end, 7);
    assert_eq!(r.len(), 1);

    let r = ChunkRange::from_len(u64::MAX - 3, 4);
    assert_eq!(r.end, u64::MAX);
    assert_eq!(r.len(), 4);
}

#[test]
fn test_new_and_len() {
    let r = ChunkRange::new(3, 9);
    assert_eq!(r.start, 3);
    assert_eq!(r.end, 9);
    assert_eq!(r.len(), 7);
}

#[test]
fn test_range_value() {
    assert_eq!(ChunkRange::new(0, 1).range_value(), "0-1");
    assert_eq!(ChunkRange::new(20, 21).range_value(), "20-21");
    assert_eq!(
        ChunkRange::new(1048576, 2097151).range_value(),
        "1048576-2097151"
    );
}

#[test]
fn test_u64_to_decimal() {
    assert_eq!(u64_to_decimal(0), "0");
    assert_eq!(u64_to_decimal(10), "10");
    assert_eq!(u64_to_decimal(2097152), "2097152");
    assert_eq!(u64_to_decimal(u64::MAX), "18446744073709551615");
}

#[test]
fn test_parse_u64() {
    assert_eq!(parse_u64("22"), Some(22));
    assert_eq!(parse_u64("0"), Some(0));
    assert_eq!(parse_u64("007"), Some(7));
    assert_eq!(parse_u64("18446744073709551615"), Some(u64::MAX));
    assert_eq!(parse_u64("18446744073709551616"), None);
    assert_eq!(parse_u64(""), None);
    assert_eq!(parse_u64("1a"), None);
    assert_eq!(parse_u64("-4"), None);
    assert_eq!(parse_u64(" 4"), None);
}

#[test]
fn test_print_parse_roundtrip() {
    for n in [0u64, 1, 9, 10, 99, 12345, u64::MAX] {
        assert_eq!(parse_u64(u64_to_decimal(n).as_str()), Some(n));
    }
}
