use photo_browser::decimal::u64_to_dec;

#[test]
fn small_numbers() {
    assert_eq!(u64_to_dec(0), "0");
    assert_eq!(u64_to_dec(7), "7");
    assert_eq!(u64_to_dec(9), "9");
}

#[test]
fn multi_digit_numbers() {
    assert_eq!(u64_to_dec(10), "10");
    assert_eq!(u64_to_dec(105), "105");
    assert_eq!(u64_to_dec(99000), "99000");
}

#[test]
fn largest_value() {
    assert_eq!(u64_to_dec(u64::MAX), "18446744073709551615");
}
