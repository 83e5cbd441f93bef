use hawk::bytes::{comes_before, contains_seq};

#[test]
fn a_needle_is_found_anywhere() {
    assert!(contains_seq(b"abcdef", b"abc"));
    assert!(contains_seq(b"abcdef", b"cd"));
    assert!(contains_seq(b"abcdef", b"def"));
    assert!(contains_seq(b"abcdef", b"abcdef"));
    assert!(contains_seq(b"aab", b"ab"));
}

#[test]
fn a_needle_that_is_not_there_is_not_found() {
    assert!(!contains_seq(b"abcdef", b"ce"));
    assert!(!contains_seq(b"ab", b"abc"));
    assert!(!contains_seq(b"", b"a"));
}

#[test]
fn byte_strings_are_ordered_as_slices_are() {
    let all: [&[u8]; 7] = [b"", b"a", b"ab", b"abc", b"b", b"\xff", b"A"];
    for a in all {
        for b in all {
            assert_eq!(comes_before(a, b), a < b);
        }
    }
}
