//! Characters, and the short pieces of text that numbers are written with.

use vstd::prelude::*;
use vstd::string::*;

use crate::segment::{is_digit_byte, ILLEGIBLE};

verus! {

/// Whether `c` is white space: one of the twenty-five characters that Unicode
/// lists as `White_Space`.
pub open spec fn white_space(c: char) -> bool {
    let code = c as u32;
    ||| 0x0009 <= code <= 0x000D
    ||| code == 0x0020
    ||| code == 0x0085
    ||| code == 0x00A0
    ||| code == 0x1680
    ||| 0x2000 <= code <= 0x200A
    ||| code == 0x2028
    ||| code == 0x2029
    ||| code == 0x202F
    ||| code == 0x205F
    ||| code == 0x3000
}

/// Whether `c` is one of the ASCII digits.
pub open spec fn is_digit(c: char) -> bool {
    '0' <= c <= '9'
}

/// Whether every character of `number` is an ASCII digit.
pub open spec fn all_digits(number: Seq<char>) -> bool {
    forall|i: int| 0 <= i < number.len() ==> is_digit(#[trigger] number[i])
}

/// Whether `number` is nine ASCII digits.
pub open spec fn is_account_number(number: Seq<char>) -> bool {
    number.len() == 9 && all_digits(number)
}

/// The number that the ASCII digit `c` writes.
pub open spec fn digit_value(c: char) -> int {
    c as int - '0' as int
}

/// Whether `b` can stand in a number that was read: an ASCII digit, or
/// [`ILLEGIBLE`].
pub open spec fn is_cell_byte(b: u8) -> bool {
    is_digit_byte(b) || b == ILLEGIBLE
}

/// The text that spells the bytes of `cells`, one character for each.
pub open spec fn spelled(cells: Seq<u8>) -> Seq<char> {
    Seq::new(cells.len(), |i: int| cells[i] as char)
}

/// The texts of `strings`, in their order.
pub open spec fn texts(strings: Seq<String>) -> Seq<Seq<char>> {
    Seq::new(strings.len(), |i: int| strings[i]@)
}

/// `n` in decimal, without leading zeros.
pub open spec fn decimal(n: nat) -> Seq<char>
    decreases n,
{
    if n < 10 {
        seq![(n + '0' as nat) as char]
    } else {
        decimal(n / 10).push((n % 10 + '0' as nat) as char)
    }
}

/// Whether `c` is white space.
pub fn is_whitespace(c: char) -> (b: bool)
    ensures
        b == white_space(c),
{
    let code: u32 = c as u32;
    (0x0009 <= code && code <= 0x000D) || code == 0x0020 || code == 0x0085 || code == 0x00A0
        || code == 0x1680 || (0x2000 <= code && code <= 0x200A) || code == 0x2028
        || code == 0x2029 || code == 0x202F || code == 0x205F || code == 0x3000
}

/// The one-character text of a digit or of [`ILLEGIBLE`].
pub(crate) fn cell_str(b: u8) -> (s: &'static str)
    requires
        is_cell_byte(b),
    ensures
        s@ == seq![b as char],
{
    proof {
        reveal_strlit("0");
        reveal_strlit("1");
        reveal_strlit("2");
        reveal_strlit("3");
        reveal_strlit("4");
        reveal_strlit("5");
        reveal_strlit("6");
        reveal_strlit("7");
        reveal_strlit("8");
        reveal_strlit("9");
        reveal_strlit("?");
    }
    let s = match b as char {
        '0' => "0",
        '1' => "1",
        '2' => "2",
        '3' => "3",
        '4' => "4",
        '5' => "5",
        '6' => "6",
        '7' => "7",
        '8' => "8",
        '9' => "9",
        _ => "?",
    };
    s
}

/// The text that spells `cells`.
pub(crate) fn spell(cells: &[u8; 9]) -> (text: String)
    requires
        forall|i: int| 0 <= i < 9 ==> is_cell_byte(#[trigger] cells@[i]),
    ensures
        text@ == spelled(cells@),
{
    let mut text = String::new();
    let mut i: usize = 0;
    while i < 9
        invariant
            i <= 9,
            forall|i: int| 0 <= i < 9 ==> is_cell_byte(#[trigger] cells@[i]),
            text@ == spelled(cells@.take(i as int)),
        decreases 9 - i,
    {
        text.append(cell_str(cells[i]));
        i += 1;
    }
    text
}

/// `n` written in decimal.
pub fn to_decimal(n: u64) -> (text: String)
    ensures
        text@ == decimal(n as nat),
    decreases n,
{
    if n < 10 {
        let text = String::from_str(cell_str(48 + n as u8));
        text
    } else {
        let mut text = to_decimal(n / 10);
        text.append(cell_str(48 + (n % 10) as u8));
        text
    }
}

} // verus!
