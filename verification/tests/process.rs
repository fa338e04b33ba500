use bankocr::process::{keep_valid, Processor, Result};

fn run(input: &Vec<String>) -> Vec<Result> {
    Processor::new().feed_all(input)
}

#[test]
fn bad_checksum_with_alts() {
    let input = vec![
        "    _  _  _  _  _  _     _ ".to_string(),
        "|_||_|| || ||_   |  |  ||_ ".to_string(),
        "  | _||_||_||_|  |  |  | _|".to_string(),
        "".to_string(),
    ];
    let output: Vec<Result> = run(&input);
    assert_eq!(output.len(), 1);

    if let Result::BadChecksum { account_number, line_number, alternates } = &output[0] {
        assert_eq!(account_number, "490067715");
        assert_eq!(*line_number, 4);
        assert_eq!(*alternates, vec!["490867715", "490067115", "490067719"]);
    } else {
        panic!("Not BadChecksum variant");
    }
}

#[test]
fn process_bad_checksum_single_alt() {
    let input = vec![
        // 723456789
        " _  _  _     _  _  _  _  _ ".to_string(),
        "  | _| _||_||_ |_   ||_||_|".to_string(),
        "  ||_  _|  | _||_|  ||_| _|".to_string(),
        "".to_string(),
    ];
    let output: Vec<Result> = run(&input);
    assert_eq!(output.len(), 1);

    if let Result::BadChecksum { account_number, line_number, alternates } = &output[0] {
        assert_eq!(account_number, "723456789");
        assert_eq!(*line_number, 4);
        assert_eq!(*alternates, vec!["123456789"]);
    } else {
        panic!("Not BadChecksum variant")
    }
}

#[test]
fn process_bad_checksum_no_alt() {
    let input = vec![
        "    _  _  _  _     _     _ ".to_string(),
        "|_||_||_|| ||_   |  |  ||_ ".to_string(),
        "  | _||_||_||_|  |  |  | _|".to_string(),
        "".to_string(),
    ];
    let output: Vec<Result> = run(&input);
    assert_eq!(output.len(), 1);

    if let Result::BadChecksum { account_number, line_number, alternates } = &output[0] {
        assert_eq!(account_number, "498061715");
        assert_eq!(*line_number, 4);
        assert_eq!(alternates.len(), 0);
    } else {
        panic!("Not BadChecksum variant")
    }
}

#[test]
fn valid_number() {
    let input = vec![
        "    _  _  _  _  _        _ ".to_string(),
        "|_||_|| || ||_   |  |  ||_ ".to_string(),
        "  | _||_||_||_|  |  |  | _|".to_string(),
        "".to_string(),
    ];
    let output: Vec<Result> = run(&input);
    assert_eq!(output.len(), 1);

    if let Result::Success { account_number, line_number } = &output[0] {
        assert_eq!(account_number, "490067115");
        assert_eq!(*line_number, 4);
    } else {
        panic!("Not Success variant")
    }
}

#[test]
fn one_illegible_digit_with_one_valid_match() {
    // The fifth cell lacks its top stroke: it could be 0 with the stroke.
    let mut processor = Processor::new();
    assert!(processor.feed("    _  _     _  _        _ ").is_none());
    assert!(processor.feed("|_||_|| || ||_   |  |  ||_ ").is_none());
    assert!(processor.feed("  | _||_||_||_|  |  |  | _|").is_none());
    match processor.feed("") {
        Some(Result::BadDigits { account_number, line_number, alternates }) => {
            assert_eq!(account_number, "490?67115");
            assert_eq!(line_number, 4);
            assert_eq!(alternates, vec!["490067115"]);
        }
        _ => panic!("Not BadDigits variant"),
    }
}

#[test]
fn close_matches_without_a_valid_checksum_are_dropped() {
    // The last cell could be 5 or 3; neither number is valid.
    let mut processor = Processor::new();
    processor.feed("    _  _  _  _  _  _     _ ");
    processor.feed("|_||_|| || ||_   |  |  | _ ");
    processor.feed("  | _||_||_||_|  |  |  | _|");
    match processor.feed("") {
        Some(Result::BadDigits { account_number, line_number, alternates }) => {
            assert_eq!(account_number, "49006771?");
            assert_eq!(line_number, 4);
            assert_eq!(alternates, Vec::<String>::new());
        }
        _ => panic!("Not BadDigits variant"),
    }
}

#[test]
fn a_fault_is_reported_with_its_line() {
    let mut processor = Processor::new();
    assert!(processor.feed("    _  _  _  _  _        _ ").is_none());
    match processor.feed("|_ |_|| || ||X   |  |  ||_ ") {
        Some(Result::InvalidCharacter { error }) => {
            assert_eq!(error.message, "Expected space or '_' but found 'X'.");
            assert_eq!((error.line_number, error.col, error.row), (2, 13, 1));
        }
        _ => panic!("Not InvalidCharacter variant"),
    }
    // The rest of the entry brings nothing.
    assert!(processor.feed("  | _||_||_||_|  |  |  | _|").is_none());
    assert!(processor.feed("").is_none());
    assert_eq!(processor.get_line_number(), 4);
}

#[test]
fn an_entry_that_is_not_closed_brings_nothing() {
    let input = vec![
        "    _  _  _  _  _        _ ".to_string(),
        "|_||_|| || ||_   |  |  ||_ ".to_string(),
        "  | _||_||_||_|  |  |  | _|".to_string(),
    ];
    assert_eq!(run(&input).len(), 0);
    assert_eq!(run(&Vec::new()).len(), 0);
}

#[test]
fn results_come_as_their_lines_are_fed() {
    let entry = [
        "    _  _  _  _  _        _ ",
        "|_||_|| || ||_   |  |  ||_ ",
        "  | _||_||_||_|  |  |  | _|",
        "",
    ];
    let mut processor = Processor::new();
    for round in 0..3u32 {
        for line in &entry[0..3] {
            assert!(processor.feed(line).is_none());
        }
        match processor.feed(entry[3]) {
            Some(Result::Success { account_number, line_number }) => {
                assert_eq!(account_number, "490067115");
                assert_eq!(line_number, 4 * (round + 1));
            }
            _ => panic!("Not Success variant"),
        }
    }
}

#[test]
fn valid_candidates_are_kept_in_their_order() {
    let candidates: Vec<String> =
        ["490067115", "490067715", "123456789", "1234", "000000000", "12345678x"]
            .iter()
            .map(|s| s.to_string())
            .collect();
    assert_eq!(keep_valid(&candidates), vec!["490067115", "123456789", "000000000"]);
    assert_eq!(keep_valid(&Vec::new()), Vec::<String>::new());
}
