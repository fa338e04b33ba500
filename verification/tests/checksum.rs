use bankocr::checksum::{alternate_digits, find_adjacent, is_checksum_valid, is_numeric};

fn validate_find_adjacent(account_number: &str, adjacents: Vec<&str>) {
    let adj = find_adjacent(account_number);
    assert_eq!(adj, adjacents);
    for adjacent in adjacents {
        assert!(is_checksum_valid(adjacent));
    }
}

#[test]
fn finds_adjacent_numbers() {
    validate_find_adjacent("123456789", vec![]);
    validate_find_adjacent("723456789", vec!["123456789"]);
    validate_find_adjacent("129456789", vec!["123456789", "129456799"]);
    validate_find_adjacent("123466789", vec!["123456789", "123466709"]);
    validate_find_adjacent("123496789", vec!["123456789", "123496799"]);
    validate_find_adjacent("123455789", vec!["123456789", "123455189"]);
    validate_find_adjacent("123458789", vec!["123456789"]);
    validate_find_adjacent("123456189", vec!["123455189", "123456789", "123456169", "123456185"]);
    validate_find_adjacent("123456709", vec!["123466709", "123456789", "123456703"]);
    validate_find_adjacent("123456769", vec!["123456169", "123456789"]);
    validate_find_adjacent("123456799", vec!["129456799", "123496799", "123456789"]);
    validate_find_adjacent("123456788", vec!["123456789"]);
    validate_find_adjacent("123466789", vec!["123456789", "123466709"]);
}

#[test]
fn can_validate_checksum() {
    assert!(!is_checksum_valid("00000019"), "checksome");
    assert!(is_checksum_valid("000000019"), "checksome");
    assert!(!is_checksum_valid("0000000019"), "checksome");

    assert!(is_checksum_valid("000000000"), "checksome");
    assert!(!is_checksum_valid("000000001"), "checksome");
    assert!(is_checksum_valid("500000301"), "checksome");
    assert!(is_checksum_valid("135802539"), "checksome");
}

#[test]
fn checksum_weights_the_last_digit_with_one() {
    // 1 * 9 + 2 * 1 = 11
    assert!(is_checksum_valid("100000002"));
    // 2 * 9 + 4 * 1 = 22
    assert!(is_checksum_valid("200000004"));
    // 1 * 2 + 9 * 1 = 11
    assert!(is_checksum_valid("000000019"));
    // 9 * 2 + 1 * 1 = 19
    assert!(!is_checksum_valid("000000091"));
    // 1 * 9 + ... + 9 * 1 = 165 = 15 * 11
    assert!(is_checksum_valid("123456789"));
    // 9 + 8 + ... + 1 = 45
    assert!(!is_checksum_valid("111111111"));
}

#[test]
fn malformed_text_is_not_valid() {
    assert!(!is_checksum_valid(""));
    assert!(!is_checksum_valid("0"));
    assert!(!is_checksum_valid("00000000a"));
    assert!(!is_checksum_valid("0000 0000"));
    assert!(!is_checksum_valid("49006771?"));
    assert!(!is_checksum_valid("-00000000"));
    assert!(!is_checksum_valid("00000000\u{0663}"));
    assert!(!is_checksum_valid("\u{ff10}\u{ff10}\u{ff10}"));
    assert!(!is_checksum_valid("000000000000000000"));
}

#[test]
fn numeric_means_ascii_digits() {
    assert!(is_numeric(""));
    assert!(is_numeric("0123456789"));
    assert!(!is_numeric("12a"));
    assert!(!is_numeric(" 12"));
    assert!(!is_numeric("1\u{0663}"));
    assert!(!is_numeric("?"));
    assert!(!is_numeric("/"));
    assert!(!is_numeric(":"));
}

#[test]
fn alternates_follow_the_table() {
    assert_eq!(alternate_digits(b'0'), vec![b'8']);
    assert_eq!(alternate_digits(b'1'), vec![b'7']);
    assert_eq!(alternate_digits(b'2'), Vec::<u8>::new());
    assert_eq!(alternate_digits(b'3'), vec![b'9']);
    assert_eq!(alternate_digits(b'4'), Vec::<u8>::new());
    assert_eq!(alternate_digits(b'5'), vec![b'6', b'9']);
    assert_eq!(alternate_digits(b'6'), vec![b'5', b'8']);
    assert_eq!(alternate_digits(b'7'), vec![b'1']);
    assert_eq!(alternate_digits(b'8'), vec![b'0', b'6', b'9']);
    assert_eq!(alternate_digits(b'9'), vec![b'3', b'5', b'8']);
}

#[test]
fn adjacent_numbers_come_by_place_and_may_repeat() {
    // 0 -> 8 at each of the nine places; 8 * weight is a multiple of 11 for
    // no weight from 1 to 9.
    assert_eq!(find_adjacent("000000000"), Vec::<String>::new());
    // First place before last place.
    assert_eq!(find_adjacent("123456799"), vec!["129456799", "123496799", "123456789"]);
    // Every candidate differs from the number in one place.
    let number = "490067715";
    for candidate in find_adjacent(number) {
        let differing =
            candidate.bytes().zip(number.bytes()).filter(|(a, b)| a != b).count();
        assert_eq!(differing, 1);
        assert!(is_checksum_valid(&candidate));
    }
}
