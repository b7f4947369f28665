use wp_update::text::u64_to_dec;

#[test]
fn renders_zero() {
    assert_eq!(u64_to_dec(0), b"0".to_vec());
}

#[test]
fn renders_a_timestamp() {
    assert_eq!(u64_to_dec(1700000000), b"1700000000".to_vec());
}

#[test]
fn renders_the_largest_value() {
    assert_eq!(u64_to_dec(u64::MAX), b"18446744073709551615".to_vec());
}
