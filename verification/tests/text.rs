use neb_offload::text::{contains, parse_int, push_decimal, push_signed_decimal, same};

#[test]
fn numbers_print_and_read_back() {
    for n in [i64::MIN, -10, -1, 0, 1, 9, 10, 99, 100, 1234567890, i64::MAX] {
        let mut s = String::from("x");
        push_signed_decimal(&mut s, n);
        assert_eq!(s, format!("x{n}"));
        assert_eq!(
            parse_int(&s[1..], i64::MIN as i128, i64::MAX as i128),
            Some(n as i128)
        );
    }
    let mut s = String::new();
    push_decimal(&mut s, u64::MAX);
    assert_eq!(s, u64::MAX.to_string());
    assert_eq!(parse_int(&s, 0, u64::MAX as i128), Some(u64::MAX as i128));
    assert_eq!(parse_int(&s, 0, u64::MAX as i128 - 1), None);
}

#[test]
fn parts_of_texts_are_found() {
    for hay in ["", "a", "timed out", "op timed out", "timed ou", "aab", "ttimed out!"] {
        for needle in ["", "a", "ab", "timed out", "out!"] {
            assert_eq!(contains(hay, needle), hay.contains(needle), "{hay} {needle}");
        }
    }
    assert!(same("äö", "äö"));
    assert!(!same("äö", "äo"));
}
