//! The parser: from lines of text to the numbers they draw.
//!
//! The parser counts the lines it is given. Line `n` (from 1) is row
//! `(n - 1) % 4` of its entry: rows 0 to 2 hold the glyphs, row 3 closes the
//! entry. The closing line is held to the same rule as the rows of glyphs:
//! it has no place for a stroke, so all of it must be blank. A line that is
//! at fault spoils its entry: the rest of the entry is passed over, and
//! reading starts again with the next row 0.

use vstd::prelude::*;
use vstd::string::*;

use crate::segment::{
    bit_pos, close_matches, decode, find_register_digit_close_matches, is_digit_byte,
    lemma_round_trip, on_char, pattern_of, read_register_digit, stroke_bit, stroke_char,
    ILLEGIBLE, NO_STROKE,
};
use crate::text::{is_account_number, is_whitespace, spell, spelled, texts, white_space};

verus! {

/// Parser of account numbers drawn as glyphs.
pub struct Parser {
    /// The strokes seen so far in each of the nine cells of the entry.
    register: [u8; 9],
    /// The number of lines taken so far.
    line_number: usize,
    /// Whether the rest of the entry is passed over, after a fault.
    skip: bool,
}

/// What a [`Parser`] holds, as plain values.
pub struct ParserState {
    /// The pattern of strokes seen so far in each cell of the entry.
    pub register: Seq<u8>,
    /// The number of lines taken so far.
    pub line_number: nat,
    /// Whether the rest of the entry is passed over.
    pub skip: bool,
}

/// Where parsing stands after a line.
#[derive(Debug)]
pub enum Status {
    /// The entry is complete and every cell draws a digit.
    Success(String),
    /// The entry is complete, but one or more cells draw no digit.
    BadDigits {
        /// The number, with `?` in place of each such cell.
        account_number: String,
        /// The numbers that differ from the one drawn in one stroke of the
        /// cell at fault, where there is only one such cell.
        alternates: Vec<String>,
    },
    /// The line is at fault.
    Error {
        /// What was expected and what was found.
        message: String,
        /// The line at fault, counted from 1.
        line_number: usize,
        /// The column at fault, counted from 0.
        col: usize,
        /// The row of the entry that the line is.
        row: usize,
    },
    /// The entry is not complete yet.
    Incomplete,
}

/// A [`Status`] as plain values.
pub enum StatusView {
    Success(Seq<char>),
    BadDigits { account_number: Seq<char>, alternates: Seq<Seq<char>> },
    Error { message: Seq<char>, line_number: nat, col: nat, row: nat },
    Incomplete,
}

/// A fault in a line, and where it was found.
#[derive(PartialEq, Debug)]
pub struct Error {
    /// What was expected and what was found.
    pub message: String,
    /// The line at fault, counted from 1.
    pub line_number: usize,
    /// The column at fault, counted from 0.
    pub col: usize,
    /// The row of the entry that the line is.
    pub row: usize,
}

/// An [`Error`] as plain values.
pub struct ErrorView {
    pub message: Seq<char>,
    pub line_number: nat,
    pub col: nat,
    pub row: nat,
}

impl View for Status {
    type V = StatusView;

    open spec fn view(&self) -> StatusView {
        match *self {
            Status::Success(account_number) => StatusView::Success(account_number@),
            Status::BadDigits { account_number, alternates } => StatusView::BadDigits {
                account_number: account_number@,
                alternates: texts(alternates@),
            },
            Status::Error { message, line_number, col, row } => StatusView::Error {
                message: message@,
                line_number: line_number as nat,
                col: col as nat,
                row: row as nat,
            },
            Status::Incomplete => StatusView::Incomplete,
        }
    }
}

impl View for Error {
    type V = ErrorView;

    open spec fn view(&self) -> ErrorView {
        ErrorView {
            message: self.message@,
            line_number: self.line_number as nat,
            col: self.col as nat,
            row: self.row as nat,
        }
    }
}

impl View for Parser {
    type V = ParserState;

    closed spec fn view(&self) -> ParserState {
        ParserState {
            register: self.register@,
            line_number: self.line_number as nat,
            skip: self.skip,
        }
    }
}

impl ParserState {
    /// Nine cells, each a pattern of the seven strokes.
    pub open spec fn wf(self) -> bool {
        &&& self.register.len() == 9
        &&& forall|i: int| 0 <= i < 9 ==> #[trigger] self.register[i] < 128
    }
}

/// The message for a stroke beyond the ninth cell.
pub open spec fn too_long() -> Seq<char> {
    "Input line is too long."@
}

/// The message for `found` in a place that must stay blank.
pub open spec fn expected_space(found: char) -> Seq<char> {
    "Expected space but found '"@ + seq![found] + "'."@
}

/// The message for `found` in the place of the stroke `stroke`.
pub open spec fn expected_space_or(stroke: char, found: char) -> Seq<char> {
    "Expected space or '"@ + seq![stroke] + "' but found '"@ + seq![found] + "'."@
}

/// What is wrong with `ch` at column `col` of a line that is row `row` of
/// its entry, if anything is.
pub open spec fn complaint(row: int, col: int, ch: char) -> Option<Seq<char>> {
    let stroke = stroke_char(row, col % 3);
    if col / 3 > 8 && !white_space(ch) {
        Some(too_long())
    } else if stroke == NO_STROKE {
        if ch != ' ' {
            Some(expected_space(ch))
        } else {
            None
        }
    } else if ch != stroke && ch != ' ' {
        Some(expected_space_or(stroke, ch))
    } else {
        None
    }
}

/// The first column from `from` on at which `line`, as row `row`, is at
/// fault, or the length of `line` if there is none.
pub open spec fn first_fault(row: int, line: Seq<char>, from: nat) -> nat
    decreases line.len() - from,
{
    if from >= line.len() {
        line.len()
    } else if complaint(row, from as int, line[from as int]) is Some {
        from
    } else {
        first_fault(row, line, from + 1)
    }
}

/// The register once the first `n` characters of `line` have been read as
/// row `row`: each character that draws the stroke of its place sets that
/// stroke's bit in the pattern of its cell.
pub open spec fn lit(row: int, line: Seq<char>, register: Seq<u8>, n: nat) -> Seq<u8>
    decreases n,
{
    if n == 0 {
        register
    } else {
        let before = lit(row, line, register, (n - 1) as nat);
        let col = n - 1;
        let stroke = stroke_char(row, col % 3);
        if col < line.len() && col / 3 < 9 && stroke != NO_STROKE && line[col] == stroke {
            before.update(col / 3, before[col / 3] | (1u8 << (stroke_bit(row, col % 3) as usize)))
        } else {
            before
        }
    }
}

/// The register at the start of an entry: nine cells without a stroke.
pub open spec fn blank() -> Seq<u8> {
    Seq::new(9, |i: int| 0u8)
}

/// The number that `register` draws, with `?` for each cell that draws no
/// digit.
pub open spec fn account_text(register: Seq<u8>) -> Seq<char> {
    Seq::new(register.len(), |i: int| decode(register[i]) as char)
}

/// Whether every cell of `register` draws a digit.
pub open spec fn legible(register: Seq<u8>) -> bool {
    forall|i: int| 0 <= i < register.len() ==> decode(#[trigger] register[i]) != ILLEGIBLE
}

/// Whether cell `k` of `register` is the only one that draws no digit.
pub open spec fn sole_illegible(register: Seq<u8>, k: int) -> bool {
    &&& 0 <= k < register.len()
    &&& decode(register[k]) == ILLEGIBLE
    &&& forall|j: int|
        0 <= j < register.len() && j != k ==> decode(#[trigger] register[j]) != ILLEGIBLE
}

/// `text` with each of `digits` in turn at place `k`.
pub open spec fn substitutions(text: Seq<char>, k: int, digits: Seq<u8>) -> Seq<Seq<char>> {
    Seq::new(digits.len(), |j: int| text.update(k, digits[j] as char))
}

/// The numbers offered in place of the one that `register` draws: where one
/// cell alone draws no digit, the number with each close match of that cell,
/// in their order; otherwise none.
pub open spec fn alternates_of(register: Seq<u8>) -> Seq<Seq<char>> {
    if exists|k: int| sole_illegible(register, k) {
        let k = choose|k: int| sole_illegible(register, k);
        substitutions(account_text(register), k, close_matches(register[k]))
    } else {
        Seq::empty()
    }
}

/// What a complete entry with the patterns `register` comes to.
pub open spec fn readout(register: Seq<u8>) -> StatusView {
    if legible(register) {
        StatusView::Success(account_text(register))
    } else {
        StatusView::BadDigits {
            account_number: account_text(register),
            alternates: alternates_of(register),
        }
    }
}

/// The row of its entry that line `line_number` (from 1) is.
pub open spec fn row_of(line_number: nat) -> int {
    (line_number - 1) % 4
}

/// The parser after `line`, and the status of that line, for a parser that
/// was in `state` before it.
pub open spec fn step(state: ParserState, line: Seq<char>) -> (ParserState, StatusView) {
    let line_number = state.line_number + 1;
    let row = row_of(line_number);
    if row != 0 && state.skip {
        (ParserState { line_number, ..state }, StatusView::Incomplete)
    } else {
        let start = if row == 0 {
            blank()
        } else {
            state.register
        };
        let stop = first_fault(row, line, 0);
        let register = lit(row, line, start, stop);
        if stop < line.len() {
            (
                ParserState { register, line_number, skip: true },
                StatusView::Error {
                    message: complaint(row, stop as int, line[stop as int])->0,
                    line_number,
                    col: stop,
                    row: row as nat,
                },
            )
        } else if row < 3 {
            (ParserState { register, line_number, skip: false }, StatusView::Incomplete)
        } else {
            (ParserState { register, line_number, skip: false }, readout(register))
        }
    }
}

impl Status {
    /// Whether the line closed its entry or was at fault.
    pub fn is_complete(&self) -> (complete: bool)
        ensures
            complete == !(self@ is Incomplete),
    {
        match self {
            Status::Incomplete => false,
            _ => true,
        }
    }
}

impl Parser {
    #[verifier::type_invariant]
    spec fn seven_strokes(self) -> bool {
        forall|i: int| 0 <= i < 9 ==> #[trigger] self.register@[i] < 128
    }

    /// The state of a parser that has taken no line yet.
    pub open spec fn new_state() -> ParserState {
        ParserState { register: blank(), line_number: 0, skip: false }
    }

    /// A parser that has taken no line yet.
    pub fn new() -> (parser: Parser)
        ensures
            parser@ == Parser::new_state(),
            parser@.wf(),
    {
        let parser = Parser { register: [0;9], line_number: 0, skip: false };
        assert(parser.register@ =~= blank());
        parser
    }

    /// The number of lines taken so far.
    pub fn get_line_number(&self) -> (line_number: usize)
        ensures
            line_number == self@.line_number,
    {
        self.line_number
    }

    /// Takes the next line of the input and says where parsing stands after it.
    ///
    /// The parser can count `usize::MAX` lines.
    pub fn process_line(&mut self, line: &str) -> (status: Status)
        requires
            old(self)@.line_number < usize::MAX,
        ensures
            final(self)@ == step(old(self)@, line@).0,
            status@ == step(old(self)@, line@).1,
            final(self)@.wf(),
            status@ matches StatusView::Success(number) ==> is_account_number(number),
            status@ matches StatusView::BadDigits { account_number, alternates } ==> {
                &&& account_number.len() == 9
                &&& forall|i: int|
                    0 <= i < alternates.len() ==> is_account_number(#[trigger] alternates[i])
            },
    {
        proof {
            use_type_invariant(&*self);
        }
        self.line_number += 1;

        let row = self.row();
        if row == 0 {
            self.skip = false;
            self.clear_register();
        } else if self.skip {
            return Status::Incomplete;
        }
        let ghost start = self.register@;
        let ghost row_int = row as int;

        let len = line.unicode_len();
        let mut col: usize = 0;
        for ch in chars: line.chars()
            invariant
                col == chars.index(),
                chars.seq() == line@,
                len == line@.len(),
                row == row_int,
                row_int == row_of(self.line_number as nat),
                0 <= row_int < 4,
                self.line_number == old(self).line_number + 1,
                !self.skip,
                !(row_int != 0 && old(self).skip),
                start == if row_int == 0 {
                    blank()
                } else {
                    old(self).register@
                },
                self.register@ == lit(row_int, line@, start, col as nat),
                first_fault(row_int, line@, 0) == first_fault(row_int, line@, col as nat),
        {
            let pos = col % 3;
            let dig = col / 3;
            let on = on_char(row, pos);
            let bit = bit_pos(row, pos);

            if !is_whitespace(ch) && dig > 8 {
                return self.build_error(String::from_str("Input line is too long."), col);
            } else if on == NO_STROKE {
                if ch != ' ' {
                    return self.build_error(expected_space_message(line, col, len), col);
                }
            } else {
                if ch == on {
                    let seen = self.register[dig];
                    proof {
                        use_type_invariant(&*self);
                        assert((seen | (1u8 << bit)) < 128) by (bit_vector)
                            requires
                                seen < 128,
                                bit < 7,
                        ;
                    }
                    self.register[dig] = seen | (1u8 << bit);
                } else if ch != ' ' {
                    return self.build_error(expected_space_or_message(on, line, col, len), col);
                }
            }
            col += 1;
        }

        proof {
            use_type_invariant(&*self);
        }
        if row < 3 {
            Status::Incomplete
        } else {
            let (success, account_number, alternates) = self.read_register();
            if success {
                Status::Success(account_number)
            } else {
                Status::BadDigits { account_number, alternates }
            }
        }
    }

    /// The row of the entry that the line taken last is.
    fn row(&self) -> (row: usize)
        requires
            self.line_number >= 1,
        ensures
            row == row_of(self.line_number as nat),
            row < 4,
    {
        (self.line_number - 1) % 4
    }

    /// Reads the number that the register draws, and the numbers to offer in
    /// its place where one cell alone draws no digit.
    fn read_register(&self) -> (out: (bool, String, Vec<String>))
        ensures
            out.0 == legible(self.register@),
            out.1@ == account_text(self.register@),
            texts(out.2@) == alternates_of(self.register@),
            out.0 ==> is_account_number(out.1@),
            out.1@.len() == 9,
            forall|i: int|
                0 <= i < out.2@.len() ==> is_account_number(#[trigger] texts(out.2@)[i]),
    {
        let mut buffer: [u8; 9] = [0;9];
        let mut bad_cnt: usize = 0;  // cells that draw no digit
        let mut last_bad: usize = 0;  // the last of them
        let mut index: usize = 0;
        while index < 9
            invariant
                index <= 9,
                bad_cnt <= index,
                forall|j: int| 0 <= j < index ==> #[trigger] buffer@[j] == decode(self.register@[j]),
                bad_cnt == 0 ==> forall|j: int|
                    0 <= j < index ==> decode(#[trigger] self.register@[j]) != ILLEGIBLE,
                bad_cnt == 1 ==> {
                    &&& last_bad < index
                    &&& decode(self.register@[last_bad as int]) == ILLEGIBLE
                    &&& forall|j: int|
                        0 <= j < index && j != last_bad ==> decode(#[trigger] self.register@[j])
                            != ILLEGIBLE
                },
                bad_cnt >= 2 ==> exists|a: int, b: int|
                    0 <= a < b < index && decode(#[trigger] self.register@[a]) == ILLEGIBLE
                        && decode(#[trigger] self.register@[b]) == ILLEGIBLE,
            decreases 9 - index,
        {
            let digit = read_register_digit(self.register[index]);
            buffer[index] = digit;
            if digit == ILLEGIBLE {
                bad_cnt += 1;
                last_bad = index;
            }
            index += 1;
        }
        let ghost register = self.register@;
        let ghost text = account_text(register);
        let account_number = spell(&buffer);

        let mut alts: Vec<String> = Vec::new();
        if bad_cnt == 0 {
            (true, account_number, alts)
        } else if bad_cnt == 1 {
            assert(sole_illegible(register, last_bad as int));
            let alt_digits = find_register_digit_close_matches(self.register[last_bad]);
            let mut n: usize = 0;
            while n < alt_digits.len()
                invariant
                    n <= alt_digits.len(),
                    last_bad < 9,
                    text == account_text(register),
                    register.len() == 9,
                    alts@.len() == n,
                    forall|j: int|
                        0 <= j < n ==> (#[trigger] alts@[j])@ == text.update(
                            last_bad as int,
                            alt_digits@[j] as char,
                        ),
                    forall|i: int|
                        0 <= i < alt_digits@.len() ==> is_digit_byte(#[trigger] alt_digits@[i]),
                    forall|j: int|
                        0 <= j < 9 && j != last_bad ==> #[trigger] buffer@[j] == decode(
                            register[j],
                        ),
                decreases alt_digits.len() - n,
            {
                buffer[last_bad] = alt_digits[n];
                alts.push(spell(&buffer));
                n += 1;
            }
            (false, account_number, alts)
        } else {
            (false, account_number, alts)
        }
    }

    /// Empties the register for a new entry.
    fn clear_register(&mut self)
        ensures
            final(self).register@ == blank(),
            final(self).line_number == old(self).line_number,
            final(self).skip == old(self).skip,
    {
        self.register = [0;9];
    }

    /// Gives up the entry, and reports the fault at `col` of the line taken
    /// last.
    fn build_error(&mut self, message: String, col: usize) -> (status: Status)
        requires
            old(self).line_number >= 1,
        ensures
            final(self).register == old(self).register,
            final(self).line_number == old(self).line_number,
            final(self).skip,
            final(self)@.wf(),
            status@ == (StatusView::Error {
                message: message@,
                line_number: old(self).line_number as nat,
                col: col as nat,
                row: row_of(old(self).line_number as nat) as nat,
            }),
    {
        proof {
            use_type_invariant(&*self);
        }
        self.skip = true;
        Status::Error { message, line_number: self.line_number, col, row: self.row() }
    }
}

/// The text of a stroke.
fn stroke_str(stroke: char) -> (s: &'static str)
    requires
        stroke == '_' || stroke == '|',
    ensures
        s@ == seq![stroke],
{
    proof {
        reveal_strlit("_");
        reveal_strlit("|");
    }
    if stroke == '_' {
        "_"
    } else {
        "|"
    }
}

/// The message for what stands at `col` of `line`, a place that must stay
/// blank.
fn expected_space_message(line: &str, col: usize, len: usize) -> (message: String)
    requires
        len == line@.len(),
        col < len,
    ensures
        message@ == expected_space(line@[col as int]),
{
    let mut message = String::from_str("Expected space but found '");
    message.append(line.substring_char(col, col + 1));
    message.append("'.");
    message
}

/// The message for what stands at `col` of `line` in the place of `stroke`.
fn expected_space_or_message(stroke: char, line: &str, col: usize, len: usize) -> (message:
    String)
    requires
        stroke == '_' || stroke == '|',
        len == line@.len(),
        col < len,
    ensures
        message@ == expected_space_or(stroke, line@[col as int]),
{
    let mut message = String::from_str("Expected space or '");
    message.append(stroke_str(stroke));
    message.append("' but found '");
    message.append(line.substring_char(col, col + 1));
    message.append("'.");
    message
}

/// A line that starts an entry is read alike whatever stood before it: two
/// parsers that have taken the same number of lines, a multiple of four,
/// give the same status for the line and are in the same state after it.
/// Nothing of an entry, spoiled or not, reaches the next.
pub proof fn lemma_fresh_entry(a: ParserState, b: ParserState, line: Seq<char>)
    requires
        a.line_number == b.line_number,
        a.line_number % 4 == 0,
    ensures
        step(a, line) == step(b, line),
{
}

/// The parser counts every line that it takes, also those that it passes
/// over.
pub proof fn lemma_counts_every_line(state: ParserState, line: Seq<char>)
    ensures
        step(state, line).0.line_number == state.line_number + 1,
{
}

/// A fault spoils its entry and is reported once: after a line at fault the
/// parser passes over the lines that follow, whatever they hold, and says
/// of each that the entry is incomplete, until a line starts the next entry.
pub proof fn lemma_fault_spoils_entry(state: ParserState, line: Seq<char>, next: Seq<char>)
    requires
        step(state, line).1 is Error || (state.skip && state.line_number % 4 != 0),
    ensures
        step(state, line).0.skip,
        step(state, line).0.line_number == state.line_number + 1,
        (state.line_number + 1) % 4 != 0 ==> step(step(state, line).0, next) == (
            ParserState { line_number: state.line_number + 2, ..step(state, line).0 },
            StatusView::Incomplete,
        ),
{
}

/// What a line is reported to be at fault for: the first character of the
/// line that is not what its place allows, with the number of the line, the
/// column of the character and the row of the entry.
pub proof fn lemma_error_names_first_fault(state: ParserState, line: Seq<char>)
    requires
        step(state, line).1 is Error,
    ensures
        ({
            let row = row_of(state.line_number + 1);
            &&& step(state, line).1 matches StatusView::Error { message, line_number, col, row: r }
            &&& line_number == state.line_number + 1
            &&& r == row
            &&& col < line.len()
            &&& complaint(row, col as int, line[col as int]) == Some(message)
            &&& forall|j: int| 0 <= j < col ==> complaint(row, j, #[trigger] line[j]) is None
        }),
{
    lemma_first_fault(row_of(state.line_number + 1), line, 0);
}

/// [`first_fault`] is the first column from `from` on with a complaint.
pub proof fn lemma_first_fault(row: int, line: Seq<char>, from: nat)
    ensures
        from <= line.len() ==> from <= first_fault(row, line, from) <= line.len(),
        first_fault(row, line, from) < line.len() ==> complaint(
            row,
            first_fault(row, line, from) as int,
            line[first_fault(row, line, from) as int],
        ) is Some,
        forall|j: int|
            from <= j < first_fault(row, line, from) ==> complaint(row, j, #[trigger] line[j])
                is None,
    decreases line.len() - from,
{
    if from < line.len() && complaint(row, from as int, line[from as int]) is None {
        lemma_first_fault(row, line, from + 1);
    }
}

/// Reading a line keeps the register well formed: nine cells, each a pattern
/// of the seven strokes.
pub proof fn lemma_lit_wf(row: int, line: Seq<char>, register: Seq<u8>, n: nat)
    requires
        register.len() == 9,
        forall|i: int| 0 <= i < 9 ==> #[trigger] register[i] < 128,
    ensures
        lit(row, line, register, n).len() == 9,
        forall|i: int| 0 <= i < 9 ==> #[trigger] lit(row, line, register, n)[i] < 128,
    decreases n,
{
    if n > 0 {
        lemma_lit_wf(row, line, register, (n - 1) as nat);
        let before = lit(row, line, register, (n - 1) as nat);
        let col = n - 1;
        if col / 3 < 9 && stroke_char(row, col % 3) != NO_STROKE {
            let seen = before[col / 3];
            let bit = stroke_bit(row, col % 3) as usize;
            assert((seen | (1u8 << bit)) < 128) by (bit_vector)
                requires
                    seen < 128,
                    bit < 7,
            ;
        }
    }
}

/// A parser that is well formed stays so, whatever line it takes.
pub proof fn lemma_step_wf(state: ParserState, line: Seq<char>)
    requires
        state.wf(),
    ensures
        step(state, line).0.wf(),
{
    let row = row_of(state.line_number + 1);
    let start = if row == 0 {
        blank()
    } else {
        state.register
    };
    lemma_lit_wf(row, line, start, first_fault(row, line, 0));
}

/// Nine patterns that each draw a digit are read as the number of these
/// digits: a number drawn with the patterns of its digits needs no
/// correction.
pub proof fn lemma_drawn_digits_read_back(digits: Seq<u8>)
    requires
        digits.len() == 9,
        forall|i: int| 0 <= i < 9 ==> is_digit_byte(#[trigger] digits[i]),
    ensures
        readout(Seq::new(9, |i: int| pattern_of(digits[i]))) == StatusView::Success(
            spelled(digits),
        ),
        is_account_number(spelled(digits)),
{
    let register = Seq::new(9, |i: int| pattern_of(digits[i]));
    assert forall|i: int| 0 <= i < 9 implies decode(#[trigger] register[i]) == digits[i] by {
        lemma_round_trip(digits[i], 0);
    }
    assert(account_text(register) =~= spelled(digits));
}

} // verus!
