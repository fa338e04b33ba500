use bankocr::checksum::{alternate_digits, find_adjacent, is_checksum_valid};
use bankocr::parse::{Parser, Status};
use bankocr::process::{Processor, Result};
use bankocr::segment::{
    bit_pos, find_register_digit_close_matches, on_char, read_register_digit, ILLEGIBLE,
    NO_STROKE,
};

const PATTERNS: [u8; 10] = [
    0b01111011, 0b01001000, 0b00111101, 0b01101101, 0b01001110, 0b01100111, 0b01110111,
    0b01001001, 0b01111111, 0b01101111,
];

/// The three rows that draw `patterns`, a cell of three columns for each.
fn draw(patterns: &[u8]) -> [String; 3] {
    let mut rows = [String::new(), String::new(), String::new()];
    for row in 0..3 {
        for pattern in patterns {
            for col in 0..3 {
                let on = on_char(row, col);
                if on != NO_STROKE && pattern & (1 << bit_pos(row, col)) != 0 {
                    rows[row].push(on);
                } else {
                    rows[row].push(' ');
                }
            }
        }
    }
    rows
}

fn patterns_of(number: &str) -> Vec<u8> {
    number.bytes().map(|digit| PATTERNS[(digit - b'0') as usize]).collect()
}

fn read(parser: &mut Parser, rows: &[String; 3], closing: &str) -> Status {
    for row in rows {
        match parser.process_line(row) {
            Status::Incomplete => {}
            _ => panic!("Status is not incomplete"),
        }
    }
    parser.process_line(closing)
}

#[test]
fn a_digit_is_drawn_as_its_glyph() {
    assert_eq!(draw(&[PATTERNS[0]]), [" _ ", "| |", "|_|"]);
    assert_eq!(draw(&[PATTERNS[1]]), ["   ", "  |", "  |"]);
    assert_eq!(draw(&[PATTERNS[2]]), [" _ ", " _|", "|_ "]);
    assert_eq!(draw(&[PATTERNS[3]]), [" _ ", " _|", " _|"]);
    assert_eq!(draw(&[PATTERNS[4]]), ["   ", "|_|", "  |"]);
    assert_eq!(draw(&[PATTERNS[5]]), [" _ ", "|_ ", " _|"]);
    assert_eq!(draw(&[PATTERNS[6]]), [" _ ", "|_ ", "|_|"]);
    assert_eq!(draw(&[PATTERNS[7]]), [" _ ", "  |", "  |"]);
    assert_eq!(draw(&[PATTERNS[8]]), [" _ ", "|_|", "|_|"]);
    assert_eq!(draw(&[PATTERNS[9]]), [" _ ", "|_|", " _|"]);
}

#[test]
fn a_drawn_number_is_read_back() {
    let numbers = [
        "000000000", "111111111", "222222222", "333333333", "444444444", "555555555",
        "666666666", "777777777", "888888888", "999999999", "123456789", "987654321",
        "490067715", "000000051", "314159265",
    ];
    let mut parser = Parser::new();
    for (n, number) in numbers.iter().enumerate() {
        let closing = " ".repeat(n);
        match read(&mut parser, &draw(&patterns_of(number)), &closing) {
            Status::Success(account_number) => assert_eq!(account_number, *number),
            _ => panic!("Status is not success"),
        }
    }
}

#[test]
fn every_pattern_is_read_as_it_was_drawn() {
    // Nine patterns at a time, all 128 of them, each in several cells.
    for start in 0..128usize {
        let patterns: Vec<u8> = (0..9).map(|i| ((start + 15 * i) % 128) as u8).collect();
        let expected: String =
            patterns.iter().map(|p| read_register_digit(*p) as char).collect();
        let mut parser = Parser::new();
        match read(&mut parser, &draw(&patterns), "") {
            Status::Success(account_number) => {
                assert_eq!(account_number, expected);
                assert!(!expected.contains('?'));
            }
            Status::BadDigits { account_number, alternates } => {
                assert_eq!(account_number, expected);
                let bad: Vec<usize> =
                    (0..9).filter(|i| read_register_digit(patterns[*i]) == ILLEGIBLE).collect();
                assert!(!bad.is_empty());
                if bad.len() == 1 {
                    let matches = find_register_digit_close_matches(patterns[bad[0]]);
                    assert_eq!(alternates.len(), matches.len());
                    for (alternate, digit) in alternates.iter().zip(matches) {
                        let mut bytes = expected.clone().into_bytes();
                        bytes[bad[0]] = digit;
                        assert_eq!(alternate.as_bytes(), &bytes[..]);
                    }
                } else {
                    assert!(alternates.is_empty());
                }
            }
            _ => panic!("Status is neither success nor bad digits"),
        }
    }
}

#[test]
fn reading_and_drawing_a_digit_are_inverse() {
    for (digit, pattern) in PATTERNS.iter().enumerate() {
        assert_eq!(read_register_digit(*pattern), b'0' + digit as u8);
    }
    let legible = (0..=255u8).filter(|p| read_register_digit(*p) != ILLEGIBLE).count();
    assert_eq!(legible, 10);
}

#[test]
fn no_close_match_is_the_digit_itself() {
    for pattern in 0..=255u8 {
        let own = read_register_digit(pattern);
        for digit in find_register_digit_close_matches(pattern) {
            assert!(digit.is_ascii_digit());
            assert_ne!(digit, own);
        }
    }
}

#[test]
fn the_table_of_alternates_holds_the_close_matches() {
    for (digit, pattern) in PATTERNS.iter().enumerate() {
        let table = alternate_digits(b'0' + digit as u8);
        let mut close = find_register_digit_close_matches(*pattern);
        close.sort();
        assert_eq!(table, close);
    }
    // By the stroke that differs, not in ascending order.
    assert_eq!(find_register_digit_close_matches(PATTERNS[5]), vec![b'9', b'6']);
    assert_eq!(find_register_digit_close_matches(PATTERNS[6]), vec![b'8', b'5']);
}

#[test]
fn a_fresh_entry_is_read_alike_whatever_came_before() {
    let entry = draw(&patterns_of("490067715"));

    // One parser has read a good entry, one a spoiled entry, one four lines
    // that were passed over.
    let mut after_good = Parser::new();
    read(&mut after_good, &draw(&patterns_of("888888888")), "");

    let mut after_fault = Parser::new();
    after_fault.process_line(&entry[0]);
    after_fault.process_line(&entry[1]);
    match after_fault.process_line("|_||_||_||_||_||_||_||_||_x") {
        Status::Error { line_number, col, row, .. } => {
            assert_eq!((line_number, col, row), (3, 26, 2))
        }
        _ => panic!("Status is not an error"),
    }
    after_fault.process_line("");

    let mut after_noise = Parser::new();
    for line in ["!", "|_|", "|_|", "|_|"] {
        after_noise.process_line(line);
    }

    for parser in [&mut after_good, &mut after_fault, &mut after_noise] {
        assert_eq!(parser.get_line_number(), 4);
        match read(parser, &entry, "") {
            Status::Success(account_number) => assert_eq!(account_number, "490067715"),
            _ => panic!("Status is not success"),
        }
        assert_eq!(parser.get_line_number(), 8);
    }
}

#[test]
fn each_entry_brings_one_result() {
    let good = draw(&patterns_of("490067115"));
    let mut lines: Vec<String> = Vec::new();
    // A good entry, an entry with a fault in each of its four lines, an
    // entry with an illegible digit, a good entry that is left open.
    lines.extend(good.iter().cloned());
    lines.push(String::new());
    lines.extend(["x", "y", "z", "w"].map(|line| line.to_string()));
    lines.extend(draw(&[0, 0, 0, 0, 0, 0, 0, 0, 1]).iter().cloned());
    lines.push(String::new());
    lines.extend(good.iter().cloned());

    for taken in 0..=lines.len() {
        let results = Processor::new().feed_all(&lines[..taken].to_vec());
        let expected = if taken < 4 {
            0
        } else if taken < 5 {
            1
        } else if taken < 12 {
            2
        } else {
            3
        };
        assert_eq!(results.len(), expected);
    }

    let results = Processor::new().feed_all(&lines);
    assert!(matches!(&results[0], Result::Success { line_number: 4, .. }));
    match &results[1] {
        Result::InvalidCharacter { error } => {
            assert_eq!((error.line_number, error.col, error.row), (5, 0, 0));
            assert_eq!(error.message, "Expected space but found 'x'.");
        }
        _ => panic!("Not InvalidCharacter variant"),
    }
    assert!(matches!(&results[2], Result::BadDigits { line_number: 12, .. }));
}

#[test]
fn one_valid_close_match_is_the_one_alternate() {
    // 490067115 with the top stroke of its fourth digit missing: the cell
    // draws nothing, and 0 is its one close match.
    let mut patterns = patterns_of("490067115");
    patterns[3] &= !1;
    assert_eq!(read_register_digit(patterns[3]), ILLEGIBLE);
    assert_eq!(find_register_digit_close_matches(patterns[3]), vec![b'0']);

    let mut lines: Vec<String> = draw(&patterns).to_vec();
    lines.push(String::new());
    let results = Processor::new().feed_all(&lines);
    assert_eq!(results.len(), 1);
    match &results[0] {
        Result::BadDigits { account_number, alternates, line_number } => {
            assert_eq!(account_number, "490?67115");
            assert_eq!(*alternates, vec!["490067115"]);
            assert_eq!(*line_number, 4);
        }
        _ => panic!("Not BadDigits variant"),
    }

    // 49006771? where the last cell could be 5 or 3: of 490067715 and
    // 490067713 neither is valid, of 490067115's neighbours one is.
    let mut patterns = patterns_of("490067115");
    patterns[8] = 0b01100101;
    assert_eq!(find_register_digit_close_matches(patterns[8]), vec![b'5', b'3']);
    assert!(is_checksum_valid("490067115"));
    assert!(!is_checksum_valid("490067113"));
    let mut lines: Vec<String> = draw(&patterns).to_vec();
    lines.push(String::new());
    match &Processor::new().feed_all(&lines)[0] {
        Result::BadDigits { account_number, alternates, .. } => {
            assert_eq!(account_number, "49006711?");
            assert_eq!(*alternates, vec!["490067115"]);
        }
        _ => panic!("Not BadDigits variant"),
    }
}

#[test]
fn the_checksum_depends_on_the_digits_alone() {
    let owned = String::from("135802539");
    assert_eq!(is_checksum_valid(&owned), is_checksum_valid("135802539"));
    assert_eq!(is_checksum_valid(&owned[..]), is_checksum_valid(&owned.clone()));
    assert_eq!(find_adjacent(&owned), find_adjacent("135802539"));
}

#[test]
fn one_changed_digit_breaks_the_checksum() {
    for number in ["000000000", "123456789", "490067115", "135802539", "500000301"] {
        assert!(is_checksum_valid(number));
        assert_eq!(find_adjacent(number), Vec::<String>::new());
        for place in 0..9 {
            for digit in b'0'..=b'9' {
                let mut bytes = number.as_bytes().to_vec();
                if bytes[place] != digit {
                    bytes[place] = digit;
                    let changed = String::from_utf8(bytes).unwrap();
                    assert!(!is_checksum_valid(&changed));
                }
            }
        }
    }
}

#[test]
fn what_is_offered_for_a_number_is_valid() {
    let mut state: u64 = 0x2545_f491_4f6c_dd1d;
    for _ in 0..2000 {
        state ^= state << 13;
        state ^= state >> 7;
        state ^= state << 17;
        let number = format!("{:09}", state % 1_000_000_000);
        let found = find_adjacent(&number);
        if is_checksum_valid(&number) {
            assert!(found.is_empty());
        }
        for candidate in found {
            assert!(is_checksum_valid(&candidate));
            let changed: Vec<usize> =
                (0..9).filter(|i| candidate.as_bytes()[*i] != number.as_bytes()[*i]).collect();
            assert_eq!(changed.len(), 1);
            let table = alternate_digits(number.as_bytes()[changed[0]]);
            assert!(table.contains(&candidate.as_bytes()[changed[0]]));
        }
    }
}
