use numconverter::separator::insert_separators;

#[test]
fn interval_zero_is_identity() {
    assert_eq!(insert_separators("10111011", 0, '_'), "10111011");
    assert_eq!(insert_separators("", 0, '_'), "");
}

#[test]
fn interval_four_on_eight_chars_inserts_one_separator() {
    assert_eq!(insert_separators("10111011", 4, '_'), "1011_1011");
}

#[test]
fn interval_no_shorter_than_string_is_identity() {
    assert_eq!(insert_separators("45", 4, '_'), "45");
    assert_eq!(insert_separators("1011", 4, '_'), "1011");
    assert_eq!(insert_separators("", 4, '_'), "");
}

#[test]
fn groups_count_from_the_right() {
    assert_eq!(insert_separators("1000101", 4, '_'), "100_0101");
    assert_eq!(insert_separators("12345", 2, '_'), "1_23_45");
    assert_eq!(insert_separators("1000000", 3, ','), "1,000,000");
}

#[test]
fn output_never_starts_with_separator() {
    for interval in 1..6u32 {
        for s in ["1", "10", "101", "10111011", "4A5B"] {
            let out = insert_separators(s, interval, '_');
            assert_ne!(out.chars().next().unwrap(), '_');
        }
    }
}

#[test]
fn interval_one_separates_every_character() {
    assert_eq!(insert_separators("abcd", 1, '.'), "a.b.c.d");
}
