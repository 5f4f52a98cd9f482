use memprof::text::{scan_literal, scan_number, scan_run, text_is, CharClass};

#[test]
fn numbers_are_read_to_the_last_digit() {
    let s = "ab 0042, x";
    let n = s.chars().count();
    assert_eq!(scan_number(s, n, 3), Some((42, 7)));
    assert_eq!(scan_number(s, n, 0), None);
    assert_eq!(scan_number(s, n, n), None);
}

#[test]
fn numbers_beyond_64_bits_are_refused() {
    let max = "18446744073709551615";
    assert_eq!(scan_number(max, max.len(), 0), Some((u64::MAX, max.len())));
    let over = "18446744073709551616";
    assert_eq!(scan_number(over, over.len(), 0), None);
    let long = "000000000000000000000000000001";
    assert_eq!(scan_number(long, long.len(), 0), Some((1, long.len())));
}

#[test]
fn runs_and_literals_are_located() {
    let s = "old_size: \"é\"";
    let n = s.chars().count();
    assert_eq!(scan_run(s, n, 0, CharClass::Ident), 8);
    assert_eq!(scan_run(s, n, 8, CharClass::Ident), 8);
    assert_eq!(scan_literal(s, n, 8, ": \""), Some(11));
    assert_eq!(scan_run(s, n, 11, CharClass::Text), 12);
    assert_eq!(scan_literal(s, n, 8, ":  "), None);
    assert_eq!(scan_literal(s, n, 12, "\"\""), None);
    assert!(text_is(s, n, 0, 8, "old_size"));
    assert!(!text_is(s, n, 0, 7, "old_size"));
}
