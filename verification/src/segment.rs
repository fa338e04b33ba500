//! The seven strokes of a glyph, and the digits they draw.
//!
//! A cell is three rows of three characters. Seven of its nine places can
//! hold a stroke; each of these has a bit in the cell's pattern:
//!
//! ```text
//!  0        _
//! 123      |_|
//! 456      |_|
//! ```
//!
//! The two corners of the top row hold no stroke and must stay blank.

use vstd::prelude::*;

verus! {

/// The byte that stands in a number for a cell that draws no digit: the ASCII
/// code of `?`.
pub const ILLEGIBLE: u8 = 63;

/// What [`on_char`] returns for a place that must stay blank.
pub const NO_STROKE: char = '\0';

/// What [`bit_pos`] returns for a place that must stay blank: the one bit of a
/// pattern that no stroke sets.
pub const UNUSED_BIT: usize = 7;

/// The character that draws the stroke at `pos` of glyph row `row`, or
/// [`NO_STROKE`] where the cell has none.
pub open spec fn stroke_char(row: int, pos: int) -> char {
    if row == 0 && pos == 1 {
        '_'
    } else if (row == 1 || row == 2) && pos == 1 {
        '_'
    } else if (row == 1 || row == 2) && (pos == 0 || pos == 2) {
        '|'
    } else {
        NO_STROKE
    }
}

/// The bit of a pattern that the stroke at `pos` of glyph row `row` sets, or
/// [`UNUSED_BIT`] where the cell has none.
pub open spec fn stroke_bit(row: int, pos: int) -> int {
    if row == 0 && pos == 1 {
        0
    } else if row == 1 && 0 <= pos <= 2 {
        1 + pos
    } else if row == 2 && 0 <= pos <= 2 {
        4 + pos
    } else {
        UNUSED_BIT as int
    }
}

/// The digit that a pattern draws, as an ASCII byte, or [`ILLEGIBLE`].
pub open spec fn decode(pattern: u8) -> u8 {
    if pattern == 0b0111_1011 {
        '0' as u8
    } else if pattern == 0b0100_1000 {
        '1' as u8
    } else if pattern == 0b0011_1101 {
        '2' as u8
    } else if pattern == 0b0110_1101 {
        '3' as u8
    } else if pattern == 0b0100_1110 {
        '4' as u8
    } else if pattern == 0b0110_0111 {
        '5' as u8
    } else if pattern == 0b0111_0111 {
        '6' as u8
    } else if pattern == 0b0100_1001 {
        '7' as u8
    } else if pattern == 0b0111_1111 {
        '8' as u8
    } else if pattern == 0b0110_1111 {
        '9' as u8
    } else {
        ILLEGIBLE
    }
}

/// The pattern that draws the digit whose ASCII byte is `digit`; no stroke
/// for what is no digit.
pub open spec fn pattern_of(digit: u8) -> u8 {
    if digit == '0' as u8 {
        0b0111_1011
    } else if digit == '1' as u8 {
        0b0100_1000
    } else if digit == '2' as u8 {
        0b0011_1101
    } else if digit == '3' as u8 {
        0b0110_1101
    } else if digit == '4' as u8 {
        0b0100_1110
    } else if digit == '5' as u8 {
        0b0110_0111
    } else if digit == '6' as u8 {
        0b0111_0111
    } else if digit == '7' as u8 {
        0b0100_1001
    } else if digit == '8' as u8 {
        0b0111_1111
    } else if digit == '9' as u8 {
        0b0110_1111
    } else {
        0
    }
}

/// Whether `b` is the ASCII byte of a digit.
pub open spec fn is_digit_byte(b: u8) -> bool {
    '0' as u8 <= b <= '9' as u8
}

/// `pattern` with the stroke of bit `n` turned over: drawn where it was
/// missing, removed where it was drawn.
pub open spec fn toggled(pattern: u8, n: int) -> u8 {
    pattern ^ (1u8 << (n as usize))
}

/// Whether a decoded byte is a digit rather than [`ILLEGIBLE`].
pub open spec fn is_legible() -> spec_fn(u8) -> bool {
    |digit: u8| digit != ILLEGIBLE
}

/// What each of the seven patterns one stroke away from `pattern` draws,
/// by ascending bit.
pub open spec fn neighbours(pattern: u8) -> Seq<u8> {
    Seq::new(7, |n: int| decode(toggled(pattern, n)))
}

/// The digits drawn by the patterns one stroke away from `pattern`, by
/// ascending bit of the stroke that differs.
pub open spec fn close_matches(pattern: u8) -> Seq<u8> {
    neighbours(pattern).filter(is_legible())
}

/// The character that indicates a stroke at column `col` of a cell in `row`.
pub fn on_char(row: usize, col: usize) -> (on: char)
    ensures
        on == stroke_char(row as int, col as int),
{
    match (row, col) {
        (0, 1) => '_',
        (1, 0) => '|',
        (1, 1) => '_',
        (1, 2) => '|',
        (2, 0) => '|',
        (2, 1) => '_',
        (2, 2) => '|',
        _ => NO_STROKE,
    }
}

/// The bit of the pattern that corresponds to column `col` of a cell in `row`.
pub fn bit_pos(row: usize, col: usize) -> (bit: usize)
    ensures
        bit == stroke_bit(row as int, col as int),
        bit <= UNUSED_BIT,
        bit == UNUSED_BIT <==> stroke_char(row as int, col as int) == NO_STROKE,
{
    match (row, col) {
        (0, 1) => 0,
        (1, 0) => 1,
        (1, 1) => 2,
        (1, 2) => 3,
        (2, 0) => 4,
        (2, 1) => 5,
        (2, 2) => 6,
        _ => UNUSED_BIT,
    }
}

/// The output character associated with a pattern.
pub fn read_register_digit(reg_element: u8) -> (digit: u8)
    ensures
        digit == decode(reg_element),
{
    match reg_element {
        0b0111_1011 => '0' as u8,
        0b0100_1000 => '1' as u8,
        0b0011_1101 => '2' as u8,
        0b0110_1101 => '3' as u8,
        0b0100_1110 => '4' as u8,
        0b0110_0111 => '5' as u8,
        0b0111_0111 => '6' as u8,
        0b0100_1001 => '7' as u8,
        0b0111_1111 => '8' as u8,
        0b0110_1111 => '9' as u8,
        _ => ILLEGIBLE,
    }
}

/// The digits that are a close match to a pattern: those that differ from it
/// in one stroke.
pub fn find_register_digit_close_matches(reg_element: u8) -> (matches: Vec<u8>)
    ensures
        matches@ == close_matches(reg_element),
        forall|i: int| 0 <= i < matches@.len() ==> is_digit_byte(#[trigger] matches@[i]),
{
    let mut close: Vec<u8> = Vec::new();
    let mut n: usize = 0;
    proof {
        reveal_with_fuel(Seq::filter, 1);
    }
    while n <= 6
        invariant
            n <= 7,
            close@ == neighbours(reg_element).take(n as int).filter(is_legible()),
            forall|i: int| 0 <= i < close@.len() ==> is_digit_byte(#[trigger] close@[i]),
        decreases 7 - n,
    {
        let digit = read_register_digit(reg_element ^ (1u8 << n));
        proof {
            let all = neighbours(reg_element);
            assert(all.take(n as int + 1) =~= all.take(n as int).push(all[n as int]));
            all.take(n as int).lemma_filter_push(all[n as int], is_legible());
        }
        if digit != ILLEGIBLE {
            close.push(digit);
        }
        n += 1;
    }
    proof {
        assert(neighbours(reg_element).take(7) =~= neighbours(reg_element));
    }
    close
}

/// What a pattern draws is a digit or [`ILLEGIBLE`], and of all patterns ten
/// draw a digit: the one of each digit.
pub proof fn lemma_decode(pattern: u8)
    ensures
        is_digit_byte(decode(pattern)) || decode(pattern) == ILLEGIBLE,
        decode(pattern) != ILLEGIBLE <==> exists|digit: u8|
            is_digit_byte(digit) && pattern == #[trigger] pattern_of(digit),
{
    if decode(pattern) != ILLEGIBLE {
        assert(pattern == pattern_of(decode(pattern)));
    }
}

/// The pattern of a digit draws that digit, and a pattern that draws a digit
/// is the pattern of that digit: between the ten digits and the patterns
/// that are legible, drawing and reading are inverse to each other.
pub proof fn lemma_round_trip(digit: u8, pattern: u8)
    ensures
        is_digit_byte(digit) ==> decode(pattern_of(digit)) == digit,
        decode(pattern) != ILLEGIBLE ==> pattern_of(decode(pattern)) == pattern,
{
}

/// A pattern one stroke away from `pattern` is another pattern, and draws
/// another digit if both draw one: no close match of a pattern is the digit
/// that the pattern draws itself.
pub proof fn lemma_close_matches_differ(pattern: u8, i: int)
    requires
        0 <= i < close_matches(pattern).len(),
    ensures
        is_digit_byte(close_matches(pattern)[i]),
        close_matches(pattern)[i] != decode(pattern),
{
    let all = neighbours(pattern);
    let found = close_matches(pattern)[i];
    all.lemma_filter_pred(is_legible(), i);
    all.lemma_filter_contains_rev(is_legible(), found);
    let n = choose|n: int| 0 <= n < all.len() && all[n] == found;
    let other = toggled(pattern, n);
    assert(other != pattern) by {
        let shift = n as usize;
        assert(pattern ^ (1u8 << shift) != pattern) by (bit_vector)
            requires
                shift < 7,
        ;
    }
    lemma_round_trip(found, other);
    lemma_round_trip(found, pattern);
}

} // verus!
