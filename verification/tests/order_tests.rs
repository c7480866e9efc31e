use bork::order::bytes_less;
use bork::wire::{append, copy_range, same_bytes};

#[test]
fn bytes_less_is_the_order_of_byte_strings() {
    let all: [&[u8]; 8] = [b"", b"\x00", b"A", b"a", b"aa", b"ab", b"b", b"\xff\x00"];
    for (i, a) in all.iter().enumerate() {
        for (j, b) in all.iter().enumerate() {
            assert_eq!(bytes_less(a, b), i < j);
            assert_eq!(bytes_less(a, b), a < b);
        }
    }
}

#[test]
fn byte_helpers() {
    let mut out = vec![1u8, 2];
    append(&mut out, &[3, 4]);
    append(&mut out, &[]);
    assert_eq!(out, vec![1, 2, 3, 4]);
    assert_eq!(copy_range(&out, 1, 3), vec![2, 3]);
    assert_eq!(copy_range(&out, 4, 4), Vec::<u8>::new());
    assert!(same_bytes(b"abc", b"abc"));
    assert!(same_bytes(b"", b""));
    assert!(!same_bytes(b"abc", b"abd"));
    assert!(!same_bytes(b"abc", b"ab"));
}
