use engine::bytes::{bytes_eq, bytes_in_range, bytes_lt};

#[test]
fn order_is_lexicographic() {
    assert!(bytes_lt(b"", b"a"));
    assert!(!bytes_lt(b"", b""));
    assert!(!bytes_lt(b"a", b""));
    assert!(bytes_lt(b"a", b"ab"));
    assert!(!bytes_lt(b"ab", b"a"));
    assert!(bytes_lt(b"ab", b"b"));
    assert!(bytes_lt(&[1, 255], &[2]));
    assert!(bytes_lt(&[0x7f], &[0x80]));
    assert!(!bytes_lt(&[0x80], &[0x7f]));
    assert!(!bytes_lt(b"same", b"same"));
}

#[test]
fn order_agrees_with_slices() {
    let samples: [&[u8]; 7] = [b"", b"\x00", b"a", b"ab", b"abc", b"b", b"\xff\xff"];
    for a in samples {
        for b in samples {
            assert_eq!(bytes_lt(a, b), a < b);
            assert_eq!(bytes_eq(a, b), a == b);
        }
    }
}

#[test]
fn equality_of_bytes() {
    assert!(bytes_eq(b"", b""));
    assert!(bytes_eq(b"abc", b"abc"));
    assert!(!bytes_eq(b"abc", b"abd"));
    assert!(!bytes_eq(b"abc", b"ab"));
}

#[test]
fn range_is_half_open() {
    assert!(bytes_in_range(&[2, 2], &[2, 2], &[5, 5]));
    assert!(bytes_in_range(&[3, 3], &[2, 2], &[5, 5]));
    assert!(bytes_in_range(&[5, 4, 9], &[2, 2], &[5, 5]));
    assert!(!bytes_in_range(&[5, 5], &[2, 2], &[5, 5]));
    assert!(!bytes_in_range(&[1, 1], &[2, 2], &[5, 5]));
    assert!(!bytes_in_range(&[2], &[2, 2], &[5, 5]));
    // an empty or inverted range holds nothing
    assert!(!bytes_in_range(&[2, 2], &[2, 2], &[2, 2]));
    assert!(!bytes_in_range(&[3], &[5], &[2]));
}
