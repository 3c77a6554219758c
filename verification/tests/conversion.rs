use numconverter::convert::{as_string_base, parse_in_radix, ConvertError};

#[test]
fn test_bin() {
    assert_eq!(as_string_base(&4, 2).unwrap(), "100");
    assert_eq!(as_string_base(&12, 2).unwrap(), "1100");
    assert_eq!(as_string_base(&187, 2).unwrap(), "10111011");
    assert_eq!(as_string_base(&69, 2).unwrap(), "1000101");
}

#[test]
fn test_hex() {
    assert_eq!(as_string_base(&4, 16).unwrap(), "4");
    assert_eq!(as_string_base(&12, 16).unwrap(), "C");
    assert_eq!(as_string_base(&187, 16).unwrap(), "BB");
    assert_eq!(as_string_base(&69, 16).unwrap(), "45");
}

#[test]
fn zero_converts_to_empty_string() {
    for b in 2..=32u32 {
        assert_eq!(as_string_base(&0, b).unwrap(), "");
    }
}

#[test]
fn radix_out_of_range_rejected() {
    for v in [0u128, 1, 187, u128::MAX] {
        assert_eq!(as_string_base(&v, 0), Err(ConvertError::RadixOutOfRange));
        assert_eq!(as_string_base(&v, 1), Err(ConvertError::RadixOutOfRange));
        assert_eq!(as_string_base(&v, 33), Err(ConvertError::RadixOutOfRange));
        assert_eq!(as_string_base(&v, 40), Err(ConvertError::RadixOutOfRange));
    }
}

#[test]
fn highest_radix_uses_letters() {
    // 31 is the largest digit: `V`.
    assert_eq!(as_string_base(&31, 32).unwrap(), "V");
    assert_eq!(as_string_base(&(32 * 10 + 11), 32).unwrap(), "AB");
}

#[test]
fn largest_value_round_trips() {
    let s = as_string_base(&u128::MAX, 16).unwrap();
    assert_eq!(s.len(), 32);
    assert_eq!(parse_in_radix(&s, 16), Some(u128::MAX));
}

#[test]
fn parse_round_trips_converter_output() {
    for v in [1u128, 4, 69, 187, 1_000_000, u128::MAX - 1] {
        for b in [2u32, 8, 10, 16, 32] {
            let s = as_string_base(&v, b).unwrap();
            assert_eq!(parse_in_radix(&s, b), Some(v));
        }
    }
}

#[test]
fn parse_accepts_plus_and_lowercase() {
    assert_eq!(parse_in_radix("187", 10), Some(187));
    assert_eq!(parse_in_radix("+187", 10), Some(187));
    assert_eq!(parse_in_radix("bb", 16), Some(187));
    assert_eq!(parse_in_radix("BB", 16), Some(187));
    assert_eq!(parse_in_radix("v", 32), Some(31));
}

#[test]
fn parse_rejects_malformed_numerals() {
    assert_eq!(parse_in_radix("", 10), None);
    assert_eq!(parse_in_radix("+", 10), None);
    assert_eq!(parse_in_radix("12x", 10), None);
    assert_eq!(parse_in_radix("-5", 10), None);
    assert_eq!(parse_in_radix("2", 2), None);
    assert_eq!(parse_in_radix("G", 16), None);
}

#[test]
fn parse_rejects_values_over_128_bits() {
    // One above the largest value: a 1 followed by 32 zeros, in base 16.
    let mut s = String::from("1");
    for _ in 0..32 {
        s.push('0');
    }
    assert_eq!(parse_in_radix(&s, 16), None);
}
