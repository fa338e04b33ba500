//! The processor: one result for each entry of the input.
//!
//! The processor is handed the lines of the input one by one. It passes each
//! to its parser and, where the line closes an entry or is at fault, says
//! what the entry came to.

use vstd::prelude::*;
use vstd::string::*;

use crate::checksum::{
    adjacent, checksum_valid, find_adjacent, has_valid_checksum, is_checksum_valid,
};
use crate::parse::{
    account_text, lemma_fresh_entry, readout, sole_illegible, step, substitutions, Error,
    ErrorView, Parser, ParserState, Status, StatusView,
};
use crate::segment::close_matches;
use crate::text::texts;

verus! {

/// What one entry came to.
pub enum Result {
    /// The number was read and its checksum is valid.
    Success {
        /// The number that was read.
        account_number: String,
        /// The line that closed the entry.
        line_number: u32,
    },
    /// The number was read, but its checksum is not valid.
    BadChecksum {
        /// The number that was read.
        account_number: String,
        /// The valid numbers one stroke away from it: the scanner may have
        /// misread one of these.
        alternates: Vec<String>,
        /// The line that closed the entry.
        line_number: u32,
    },
    /// One or more digits could not be read.
    BadDigits {
        /// The number, with `?` in place of each digit that could not be read.
        account_number: String,
        /// The valid numbers among the close matches that the parser offered.
        alternates: Vec<String>,
        /// The line that closed the entry.
        line_number: u32,
    },
    /// A line of the entry was at fault.
    InvalidCharacter {
        /// The fault, and where it was found.
        error: Error,
    },
}

/// A [`Result`] as plain values.
pub enum ResultView {
    Success { account_number: Seq<char>, line_number: u32 },
    BadChecksum { account_number: Seq<char>, alternates: Seq<Seq<char>>, line_number: u32 },
    BadDigits { account_number: Seq<char>, alternates: Seq<Seq<char>>, line_number: u32 },
    InvalidCharacter { error: ErrorView },
}

impl View for Result {
    type V = ResultView;

    open spec fn view(&self) -> ResultView {
        match *self {
            Result::Success { account_number, line_number } => ResultView::Success {
                account_number: account_number@,
                line_number,
            },
            Result::BadChecksum { account_number, alternates, line_number } => {
                ResultView::BadChecksum {
                    account_number: account_number@,
                    alternates: texts(alternates@),
                    line_number,
                }
            },
            Result::BadDigits { account_number, alternates, line_number } => {
                ResultView::BadDigits {
                    account_number: account_number@,
                    alternates: texts(alternates@),
                    line_number,
                }
            },
            Result::InvalidCharacter { error } => ResultView::InvalidCharacter { error: error@ },
        }
    }
}

/// The view of what a line brought.
pub open spec fn brought(result: Option<Result>) -> Option<ResultView> {
    match result {
        Some(result) => Some(result@),
        None => None,
    }
}

/// The views of `results`, in their order.
pub open spec fn result_views(results: Seq<Result>) -> Seq<ResultView> {
    Seq::new(results.len(), |i: int| results[i]@)
}

/// The result for a line whose status is `status`, where `line_number` lines
/// have been taken: none while the entry is incomplete. A result other than
/// a fault carries the number of its line as a `u32`, that is, its low 32
/// bits.
pub open spec fn classify(status: StatusView, line_number: nat) -> Option<ResultView> {
    match status {
        StatusView::Success(account_number) => if checksum_valid(account_number) {
            Some(ResultView::Success { account_number, line_number: line_number as u32 })
        } else {
            Some(
                ResultView::BadChecksum {
                    account_number,
                    alternates: adjacent(account_number, 9),
                    line_number: line_number as u32,
                },
            )
        },
        StatusView::BadDigits { account_number, alternates } => Some(
            ResultView::BadDigits {
                account_number,
                alternates: alternates.filter(has_valid_checksum()),
                line_number: line_number as u32,
            },
        ),
        StatusView::Error { message, line_number, col, row } => Some(
            ResultView::InvalidCharacter { error: ErrorView { message, line_number, col, row } },
        ),
        StatusView::Incomplete => None,
    }
}

/// What a processor whose parser is in `state` gives for `line`: the parser
/// after the line, and the result, if the line brings one.
pub open spec fn feed(state: ParserState, line: Seq<char>) -> (ParserState, Option<ResultView>) {
    let (after, status) = step(state, line);
    (after, classify(status, after.line_number))
}

/// What a processor whose parser is in `state` gives for `lines`: the parser
/// after the last of them, and the results in the order of the lines that
/// brought them.
pub open spec fn run(state: ParserState, lines: Seq<Seq<char>>) -> (ParserState, Seq<ResultView>)
    decreases lines.len(),
{
    if lines.len() == 0 {
        (state, Seq::empty())
    } else {
        let (before, results) = run(state, lines.drop_last());
        let (after, result) = feed(before, lines.last());
        match result {
            Some(result) => (after, results.push(result)),
            None => (after, results),
        }
    }
}

/// Turns the lines of an input into one result for each entry.
pub struct Processor {
    /// The parser that the lines are passed to.
    parser: Parser,
}

impl View for Processor {
    type V = ParserState;

    closed spec fn view(&self) -> ParserState {
        self.parser@
    }
}

impl Processor {
    /// A processor that has taken no line yet.
    pub fn new() -> (processor: Processor)
        ensures
            processor@ == Parser::new_state(),
    {
        Processor { parser: Parser::new() }
    }

    /// The number of lines taken so far.
    pub fn get_line_number(&self) -> (line_number: usize)
        ensures
            line_number == self@.line_number,
    {
        self.parser.get_line_number()
    }

    /// Takes the next line of the input. Gives the result of the entry where
    /// the line closes it or is at fault, and nothing while the entry is
    /// incomplete or passed over.
    ///
    /// The processor can count `usize::MAX` lines.
    pub fn feed(&mut self, line: &str) -> (result: Option<Result>)
        requires
            old(self)@.line_number < usize::MAX,
        ensures
            final(self)@ == feed(old(self)@, line@).0,
            brought(result) == feed(old(self)@, line@).1,
    {
        let status = self.parser.process_line(line);
        match status {
            Status::Success(account_number) => {
                if is_checksum_valid(account_number.as_str()) {
                    self.success(account_number)
                } else {
                    let alternates = find_adjacent(account_number.as_str());
                    self.bad_checksum(account_number, alternates)
                }
            },
            Status::BadDigits { account_number, alternates } => {
                let valid = keep_valid(&alternates);
                self.bad_digits(account_number, valid)
            },
            Status::Error { message, line_number, col, row } => {
                self.error(message, line_number, col, row)
            },
            Status::Incomplete => None,
        }
    }

    /// Takes `lines` in their order and gives the results that they bring.
    ///
    /// The processor can count `usize::MAX` lines.
    pub fn feed_all(&mut self, lines: &Vec<String>) -> (results: Vec<Result>)
        requires
            old(self)@.line_number + lines@.len() <= usize::MAX,
        ensures
            final(self)@ == run(old(self)@, texts(lines@)).0,
            result_views(results@) == run(old(self)@, texts(lines@)).1,
    {
        let mut results: Vec<Result> = Vec::new();
        let mut n: usize = 0;
        let ghost all = texts(lines@);
        while n < lines.len()
            invariant
                n <= lines.len(),
                all == texts(lines@),
                old(self)@.line_number + lines@.len() <= usize::MAX,
                self@.line_number == old(self)@.line_number + n,
                self@ == run(old(self)@, all.take(n as int)).0,
                result_views(results@) == run(old(self)@, all.take(n as int)).1,
            decreases lines.len() - n,
        {
            proof {
                assert(all.take(n as int + 1).drop_last() =~= all.take(n as int));
            }
            if let Some(result) = self.feed(lines[n].as_str()) {
                results.push(result);
            }
            n += 1;
        }
        assert(all.take(lines@.len() as int) =~= all);
        results
    }

    /// The result for a number that was read and is valid.
    fn success(&self, account_number: String) -> (result: Option<Result>)
        ensures
            result matches Some(result) && result@ == (ResultView::Success {
                account_number: account_number@,
                line_number: self@.line_number as u32,
            }),
    {
        #[verifier::truncate]
        let line_number = self.parser.get_line_number() as u32;
        Some(Result::Success { account_number, line_number })
    }

    /// The result for a number that was read and is not valid.
    fn bad_checksum(&self, account_number: String, alternates: Vec<String>) -> (result: Option<
        Result,
    >)
        ensures
            result matches Some(result) && result@ == (ResultView::BadChecksum {
                account_number: account_number@,
                alternates: texts(alternates@),
                line_number: self@.line_number as u32,
            }),
    {
        #[verifier::truncate]
        let line_number = self.parser.get_line_number() as u32;
        Some(Result::BadChecksum { account_number, line_number, alternates })
    }

    /// The result for a number with digits that could not be read.
    fn bad_digits(&self, account_number: String, alternates: Vec<String>) -> (result: Option<
        Result,
    >)
        ensures
            result matches Some(result) && result@ == (ResultView::BadDigits {
                account_number: account_number@,
                alternates: texts(alternates@),
                line_number: self@.line_number as u32,
            }),
    {
        #[verifier::truncate]
        let line_number = self.parser.get_line_number() as u32;
        Some(Result::BadDigits { account_number, line_number, alternates })
    }

    /// The result for a line at fault.
    fn error(&self, message: String, line_number: usize, col: usize, row: usize) -> (result:
        Option<Result>)
        ensures
            result matches Some(result) && result@ == (ResultView::InvalidCharacter {
                error: ErrorView {
                    message: message@,
                    line_number: line_number as nat,
                    col: col as nat,
                    row: row as nat,
                },
            }),
    {
        Some(Result::InvalidCharacter { error: Error { message, line_number, col, row } })
    }
}

/// Those of `candidates` whose checksum is valid, in their order.
pub fn keep_valid(candidates: &Vec<String>) -> (valid: Vec<String>)
    ensures
        texts(valid@) == texts(candidates@).filter(has_valid_checksum()),
{
    let mut valid: Vec<String> = Vec::new();
    let mut n: usize = 0;
    let ghost all = texts(candidates@);
    proof {
        reveal_with_fuel(Seq::filter, 1);
    }
    while n < candidates.len()
        invariant
            n <= candidates.len(),
            all == texts(candidates@),
            texts(valid@) == all.take(n as int).filter(has_valid_checksum()),
        decreases candidates.len() - n,
    {
        proof {
            assert(all.take(n as int + 1) =~= all.take(n as int).push(all[n as int]));
            all.take(n as int).lemma_filter_push(all[n as int], has_valid_checksum());
        }
        if is_checksum_valid(candidates[n].as_str()) {
            valid.push(candidates[n].clone());
        }
        n += 1;
    }
    assert(all.take(candidates@.len() as int) =~= all);
    valid
}

/// Filtering a sequence in which `s[m]` alone meets `pred` leaves that one
/// element.
proof fn lemma_filter_one<A>(s: Seq<A>, pred: spec_fn(A) -> bool, m: int)
    requires
        0 <= m < s.len(),
        pred(s[m]),
        forall|j: int| 0 <= j < s.len() && j != m ==> !pred(#[trigger] s[j]),
    ensures
        s.filter(pred) == seq![s[m]],
    decreases s.len(),
{
    reveal(Seq::filter);
    let rest = s.drop_last();
    if m == s.len() - 1 {
        rest.lemma_all_neg_filter_empty(pred);
    } else {
        lemma_filter_one(rest, pred, m);
    }
}

/// Where one cell alone draws no digit, and one alone of the numbers made
/// with the close matches of that cell has a valid checksum, the entry comes
/// to [`Result::BadDigits`] with that number and no other for an alternate.
pub proof fn lemma_single_valid_match(register: Seq<u8>, k: int, m: int, line_number: nat)
    requires
        sole_illegible(register, k),
        0 <= m < close_matches(register[k]).len(),
        checksum_valid(
            substitutions(account_text(register), k, close_matches(register[k]))[m],
        ),
        forall|j: int|
            0 <= j < close_matches(register[k]).len() && j != m ==> !checksum_valid(
                #[trigger] substitutions(account_text(register), k, close_matches(register[k]))[j],
            ),
    ensures
        classify(readout(register), line_number) == Some(
            ResultView::BadDigits {
                account_number: account_text(register),
                alternates: seq![
                    account_text(register).update(k, close_matches(register[k])[m] as char),
                ],
                line_number: line_number as u32,
            },
        ),
{
    let offered = substitutions(account_text(register), k, close_matches(register[k]));
    lemma_filter_one(offered, has_valid_checksum(), m);
}

/// Entries do not reach into each other: two processors that have taken the
/// same number of lines, a multiple of four, give the same results for the
/// lines that follow, whatever the lines before were.
pub proof fn lemma_entries_independent(a: ParserState, b: ParserState, lines: Seq<Seq<char>>)
    requires
        a.line_number == b.line_number,
        a.line_number % 4 == 0,
    ensures
        run(a, lines).1 == run(b, lines).1,
        lines.len() > 0 ==> run(a, lines).0 == run(b, lines).0,
        run(a, lines).0.line_number == a.line_number + lines.len(),
        run(b, lines).0.line_number == b.line_number + lines.len(),
    decreases lines.len(),
{
    if lines.len() > 0 {
        lemma_entries_independent(a, b, lines.drop_last());
        if lines.len() == 1 {
            lemma_fresh_entry(a, b, lines.last());
        }
    }
}

/// Each entry brings one result, with the line that closes it or with the
/// first of its lines that is at fault. Counted from the start of an entry,
/// `lines` bring as many results as they close entries, and one more where
/// the entry that they leave open has had a fault: an entry that is left
/// open without a fault brings nothing.
pub proof fn lemma_one_result_per_entry(state: ParserState, lines: Seq<Seq<char>>)
    requires
        state.line_number % 4 == 0,
    ensures
        run(state, lines).0.line_number == state.line_number + lines.len(),
        run(state, lines).1.len() == lines.len() / 4 + if lines.len() % 4 != 0 && run(
            state,
            lines,
        ).0.skip {
            1int
        } else {
            0int
        },
    decreases lines.len(),
{
    if lines.len() > 0 {
        lemma_one_result_per_entry(state, lines.drop_last());
    }
}

} // verus!
