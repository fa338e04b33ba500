//! Drawing, the inverse of reading: the lines that draw the patterns of a
//! register, and the proof that the parser reads from them what was drawn.

use vstd::prelude::*;

use crate::parse::{
    blank, complaint, first_fault, lemma_drawn_digits_read_back, lemma_first_fault, lit, readout,
    step, ParserState, StatusView,
};
use crate::segment::{is_digit_byte, pattern_of, stroke_bit, stroke_char, NO_STROKE};
use crate::text::spelled;

verus! {

/// Whether `pattern` has the stroke of bit `bit`.
pub open spec fn has_stroke(pattern: u8, bit: int) -> bool {
    pattern & (1u8 << (bit as usize)) != 0
}

/// The character at `pos` of row `row` in the glyph of `pattern`: the stroke
/// of that place where the pattern has it, a space where it has not or the
/// place holds none.
pub open spec fn glyph_char(pattern: u8, row: int, pos: int) -> char {
    let stroke = stroke_char(row, pos);
    if stroke != NO_STROKE && has_stroke(pattern, stroke_bit(row, pos)) {
        stroke
    } else {
        ' '
    }
}

/// Row `row` of the entry that draws the nine patterns of `register`: for
/// each cell the three characters of its glyph.
pub open spec fn drawn(register: Seq<u8>, row: int) -> Seq<char> {
    Seq::new(27, |col: int| glyph_char(register[col / 3], row, col % 3))
}

/// The bit that the place `pos` of row `row` has in a pattern, as a mask;
/// nothing where the place holds no stroke.
spec fn stroke_mask(row: int, pos: int) -> u8 {
    if stroke_char(row, pos) != NO_STROKE {
        1u8 << (stroke_bit(row, pos) as usize)
    } else {
        0
    }
}

/// The bits of the first `k` places of row `row`.
spec fn row_mask(row: int, k: int) -> u8
    decreases k,
{
    if k <= 0 {
        0
    } else {
        row_mask(row, k - 1) | stroke_mask(row, k - 1)
    }
}

/// How many places of cell `cell` lie in the first `n` columns of a line.
spec fn places_read(n: int, cell: int) -> int {
    if n <= 3 * cell {
        0
    } else if n >= 3 * cell + 3 {
        3
    } else {
        n - 3 * cell
    }
}

/// A drawn row holds nothing that the parser complains of.
proof fn lemma_drawn_is_sound(register: Seq<u8>, row: int)
    requires
        0 <= row < 4,
    ensures
        first_fault(row, drawn(register, row), 0) == 27,
{
    let line = drawn(register, row);
    assert forall|col: int| 0 <= col < 27 implies complaint(row, col, #[trigger] line[col])
        is None by {}
    lemma_first_fault(row, line, 0);
}

/// Reading the first `n` columns of a drawn row adds to each cell the
/// strokes that its pattern has at the places read.
proof fn lemma_lit_drawn(register: Seq<u8>, row: int, start: Seq<u8>, n: nat)
    requires
        register.len() == 9,
        start.len() == 9,
        0 <= row < 4,
        n <= 27,
    ensures
        lit(row, drawn(register, row), start, n).len() == 9,
        forall|cell: int|
            0 <= cell < 9 ==> #[trigger] lit(row, drawn(register, row), start, n)[cell] == start[cell]
                | (register[cell] & row_mask(row, places_read(n as int, cell))),
    decreases n,
{
    if n == 0 {
        assert forall|cell: int| 0 <= cell < 9 implies #[trigger] start[cell] == start[cell] | (
        register[cell] & row_mask(row, places_read(0, cell))) by {
            let s = start[cell];
            let r = register[cell];
            assert(s == s | (r & 0u8)) by (bit_vector);
        }
    } else {
        lemma_lit_drawn(register, row, start, (n - 1) as nat);
        // The place read last is `pos` of cell `at`; `m` masks the places of
        // that cell read before it.
        let col = n - 1;
        let at = col / 3;
        let pos = col % 3;
        let s = start[at];
        let r = register[at];
        let m = row_mask(row, pos);
        if stroke_char(row, pos) == NO_STROKE {
            assert(s | (r & m) == s | (r & (m | 0u8))) by (bit_vector);
        } else {
            let bit = stroke_bit(row, pos) as usize;
            if has_stroke(r, stroke_bit(row, pos)) {
                // The stroke is drawn, and read.
                assert((s | (r & m)) | (1u8 << bit) == s | (r & (m | (1u8 << bit))))
                    by (bit_vector)
                    requires
                        r & (1u8 << bit) != 0,
                ;
            } else {
                // A space is drawn, and nothing read.
                assert(s | (r & m) == s | (r & (m | (1u8 << bit)))) by (bit_vector)
                    requires
                        r & (1u8 << bit) == 0,
                ;
            }
        }
    }
}

/// The strokes of the three rows together are the seven strokes of a
/// pattern.
proof fn lemma_three_rows(pattern: u8)
    requires
        pattern < 128,
    ensures
        ((0u8 | (pattern & row_mask(0, 3))) | (pattern & row_mask(1, 3))) | (pattern & row_mask(
            2,
            3,
        )) == pattern,
        forall|seen: u8| seen | (pattern & row_mask(3, 3)) == seen,
{
    reveal_with_fuel(row_mask, 4);
    assert(((0u8 | 0u8) | (1u8 << 0usize)) | 0u8 == 1) by (bit_vector);
    assert(((0u8 | (1u8 << 1usize)) | (1u8 << 2usize)) | (1u8 << 3usize) == 14) by (bit_vector);
    assert(((0u8 | (1u8 << 4usize)) | (1u8 << 5usize)) | (1u8 << 6usize) == 112) by (bit_vector);
    assert(((0u8 | 0u8) | 0u8) | 0u8 == 0) by (bit_vector);
    assert(((0u8 | (pattern & 1)) | (pattern & 14)) | (pattern & 112) == pattern) by (bit_vector)
        requires
            pattern < 128,
    ;
    assert forall|seen: u8| seen | (pattern & row_mask(3, 3)) == seen by {
        assert(seen | (pattern & 0u8) == seen) by (bit_vector);
    }
}

/// The parser reads what is drawn. Whatever stood before, from the three
/// rows that draw the patterns of `register`, taken as an entry, the parser
/// assembles these very patterns, and with a line of spaces to close the
/// entry it gives what they come to.
pub proof fn lemma_reads_what_is_drawn(state: ParserState, register: Seq<u8>, closing: Seq<char>)
    requires
        state.line_number % 4 == 0,
        register.len() == 9,
        forall|i: int| 0 <= i < 9 ==> #[trigger] register[i] < 128,
        forall|i: int| 0 <= i < closing.len() ==> #[trigger] closing[i] == ' ',
    ensures
        ({
            let top = step(state, drawn(register, 0));
            let middle = step(top.0, drawn(register, 1));
            let bottom = step(middle.0, drawn(register, 2));
            let closed = step(bottom.0, closing);
            &&& top.1 is Incomplete
            &&& middle.1 is Incomplete
            &&& bottom.1 is Incomplete
            &&& bottom.0.register == register
            &&& closed.0.register == register
            &&& closed.1 == readout(register)
        }),
{
    let top = step(state, drawn(register, 0));
    let middle = step(top.0, drawn(register, 1));
    let bottom = step(middle.0, drawn(register, 2));
    let closed = step(bottom.0, closing);

    lemma_drawn_is_sound(register, 0);
    lemma_drawn_is_sound(register, 1);
    lemma_drawn_is_sound(register, 2);
    lemma_lit_drawn(register, 0, blank(), 27);
    lemma_lit_drawn(register, 1, top.0.register, 27);
    lemma_lit_drawn(register, 2, middle.0.register, 27);
    assert forall|cell: int| 0 <= cell < 9 implies #[trigger] bottom.0.register[cell]
        == register[cell] by {
        lemma_three_rows(register[cell]);
    }
    assert(bottom.0.register =~= register);

    assert forall|col: int| 0 <= col < closing.len() implies complaint(3, col, #[trigger] closing[col])
        is None by {}
    lemma_first_fault(3, closing, 0);
    lemma_lit_closing(closing, register, closing.len());
}

/// The line that closes an entry draws nothing.
proof fn lemma_lit_closing(line: Seq<char>, register: Seq<u8>, n: nat)
    ensures
        lit(3, line, register, n) == register,
    decreases n,
{
    if n > 0 {
        lemma_lit_closing(line, register, (n - 1) as nat);
    }
}

/// A number that is drawn is read back: from the three rows that draw the
/// nine digits of `digits` with the pattern of each, and a line of spaces,
/// the parser gives the number that `digits` spell, and needs no correction.
pub proof fn lemma_reads_drawn_number(state: ParserState, digits: Seq<u8>, closing: Seq<char>)
    requires
        state.line_number % 4 == 0,
        digits.len() == 9,
        forall|i: int| 0 <= i < 9 ==> is_digit_byte(#[trigger] digits[i]),
        forall|i: int| 0 <= i < closing.len() ==> #[trigger] closing[i] == ' ',
    ensures
        ({
            let register = Seq::new(9, |i: int| pattern_of(digits[i]));
            let top = step(state, drawn(register, 0));
            let middle = step(top.0, drawn(register, 1));
            let bottom = step(middle.0, drawn(register, 2));
            let closed = step(bottom.0, closing);
            &&& top.1 is Incomplete
            &&& middle.1 is Incomplete
            &&& bottom.1 is Incomplete
            &&& closed.1 == StatusView::Success(spelled(digits))
        }),
{
    let register = Seq::new(9, |i: int| pattern_of(digits[i]));
    lemma_reads_what_is_drawn(state, register, closing);
    lemma_drawn_digits_read_back(digits);
}

} // verus!
