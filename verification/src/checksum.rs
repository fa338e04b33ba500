//! The checksum of an account number, and the numbers one stroke away from
//! a number that fails it.
//!
//! The digits of a number are weighted by their place, the last with 1, the
//! one before it with 2, and so on to the first. The number is valid when the
//! weighted sum is a multiple of 11.

use vstd::prelude::*;
use vstd::string::*;

use crate::segment::{
    close_matches, decode, is_digit_byte, is_legible, lemma_round_trip, neighbours, pattern_of,
    toggled,
};
use crate::text::{
    all_digits, digit_value, is_account_number, is_digit, spell, spelled, texts,
};

verus! {

/// The sum of the digits of `number`, each weighted by its place counted from
/// the end: the last digit by 1, the first by the length of `number`.
pub open spec fn weighted_sum(number: Seq<char>) -> int
    decreases number.len(),
{
    if number.len() == 0 {
        0
    } else {
        digit_value(number.first()) * number.len() + weighted_sum(number.drop_first())
    }
}

/// Whether `number` is an account number whose weighted sum is a multiple
/// of 11.
pub open spec fn checksum_valid(number: Seq<char>) -> bool {
    is_account_number(number) && weighted_sum(number) % 11 == 0
}

/// [`checksum_valid`] as a predicate, for filtering.
pub open spec fn has_valid_checksum() -> spec_fn(Seq<char>) -> bool {
    |number: Seq<char>| checksum_valid(number)
}

/// The digits that one stroke turns `digit` into, in ascending order; none
/// for what is no digit.
pub open spec fn alternates(digit: char) -> Seq<char> {
    if digit == '0' {
        seq!['8']
    } else if digit == '1' {
        seq!['7']
    } else if digit == '3' {
        seq!['9']
    } else if digit == '5' {
        seq!['6', '9']
    } else if digit == '6' {
        seq!['5', '8']
    } else if digit == '7' {
        seq!['1']
    } else if digit == '8' {
        seq!['0', '6', '9']
    } else if digit == '9' {
        seq!['3', '5', '8']
    } else {
        Seq::empty()
    }
}

/// `number` with each alternate of its digit at `place` in turn at that
/// place.
pub open spec fn swapped(number: Seq<char>, place: int) -> Seq<Seq<char>> {
    Seq::new(
        alternates(number[place]).len(),
        |j: int| number.update(place, alternates(number[place])[j]),
    )
}

/// The valid numbers that differ from `number` in one stroke of one of its
/// first `places` digits: by place, and for one place in the order of the
/// alternates. A number that can be reached at two places stands twice.
pub open spec fn adjacent(number: Seq<char>, places: nat) -> Seq<Seq<char>>
    decreases places,
{
    if places == 0 {
        Seq::empty()
    } else {
        adjacent(number, (places - 1) as nat) + swapped(number, places - 1).filter(
            has_valid_checksum(),
        )
    }
}

/// Whether `account_number` is made of ASCII digits alone.
pub fn is_numeric(account_number: &str) -> (numeric: bool)
    ensures
        numeric == all_digits(account_number@),
{
    let mut col: usize = 0;
    let len = account_number.unicode_len();
    for ch in chars: account_number.chars()
        invariant
            col == chars.index(),
            chars.seq() == account_number@,
            len == account_number@.len(),
            forall|i: int| 0 <= i < col ==> is_digit(#[trigger] account_number@[i]),
    {
        if !('0' <= ch && ch <= '9') {
            return false;
        }
        col += 1;
    }
    true
}

/// Whether `account_number` is nine digits with a valid checksum.
///
/// A text of another length, or one that holds anything but ASCII digits, is
/// not valid.
pub fn is_checksum_valid(account_number: &str) -> (valid: bool)
    ensures
        valid == checksum_valid(account_number@),
        !is_account_number(account_number@) ==> !valid,
{
    if !is_numeric(account_number) {
        return false;
    }
    proof {
        is_ascii_spec_bytes(account_number);
    }
    let digits = account_number.as_bytes();
    if digits.len() != 9 {
        return false;
    }
    let ghost number = account_number@;
    let mut checksum: u32 = 0;
    let mut coefficient: u32 = 1;
    while coefficient <= 9
        invariant
            1 <= coefficient <= 10,
            number.len() == 9,
            all_digits(number),
            digits@.len() == 9,
            forall|i: int| 0 <= i < 9 ==> #[trigger] digits@[i] == number[i] as u8,
            checksum == weighted_sum(number.subrange(10 - coefficient, 9)),
            checksum <= 81 * (coefficient - 1),
        decreases 10 - coefficient,
    {
        let place: usize = 9 - coefficient as usize;
        let digit: u32 = (digits[place] - 48) as u32;
        proof {
            let tail = number.subrange(place as int, 9);
            assert(tail.drop_first() =~= number.subrange(place + 1, 9));
            assert(digit * coefficient <= 81) by (nonlinear_arith)
                requires
                    digit <= 9,
                    coefficient <= 9,
            ;
        }
        checksum += digit * coefficient;
        coefficient += 1;
    }
    assert(number.subrange(0, 9) =~= number);
    checksum % 11 == 0
}

/// The digits that can be formed from the digit `ch` by turning over one
/// stroke.
pub fn alternate_digits(ch: u8) -> (alts: &'static [u8])
    requires
        is_digit(ch as char),
    ensures
        spelled(alts@) == alternates(ch as char),
        forall|i: int| 0 <= i < alts@.len() ==> is_digit(#[trigger] alts@[i] as char),
{
    let alts: &'static [u8] = match ch as char {
        '0' => &['8' as u8],
        '1' => &['7' as u8],
        '2' => &[],
        '3' => &['9' as u8],
        '4' => &[],
        '5' => &['6' as u8, '9' as u8],
        '6' => &['5' as u8, '8' as u8],
        '7' => &['1' as u8],
        '8' => &['0' as u8, '6' as u8, '9' as u8],
        _ => &['3' as u8, '5' as u8, '8' as u8],
    };
    alts
}

/// The valid numbers that differ from `account_number` in one stroke of one
/// digit.
pub fn find_adjacent(account_number: &str) -> (matches: Vec<String>)
    requires
        is_account_number(account_number@),
    ensures
        texts(matches@) == adjacent(account_number@, 9),
        forall|i: int| 0 <= i < matches@.len() ==> checksum_valid(#[trigger] matches@[i]@),
        checksum_valid(account_number@) ==> matches@.len() == 0,
{
    let ghost number = account_number@;
    proof {
        is_ascii_spec_bytes(account_number);
    }
    let digits = account_number.as_bytes();
    let mut matches: Vec<String> = Vec::new();

    // A buffer that holds the number, to change one digit at a time.
    let mut buffer: [u8; 9] = [0;9];
    let mut n: usize = 0;
    while n < 9
        invariant
            n <= 9,
            digits@.len() == 9,
            forall|i: int| 0 <= i < n ==> #[trigger] buffer@[i] == digits@[i],
        decreases 9 - n,
    {
        buffer[n] = digits[n];
        n += 1;
    }

    // At each place, try the alternates of the digit and keep what is valid.
    let mut n: usize = 0;
    while n < 9
        invariant
            n <= 9,
            is_account_number(number),
            spelled(buffer@) == number,
            texts(matches@) == adjacent(number, n as nat),
        decreases 9 - n,
    {
        let ch = buffer[n];
        assert(is_digit(number[n as int]));
        let alts = alternate_digits(ch);
        let ghost all = swapped(number, n as int);
        let ghost found = adjacent(number, n as nat);
        let mut j: usize = 0;
        proof {
            reveal_with_fuel(Seq::filter, 1);
        }
        while j < alts.len()
            invariant
                j <= alts.len(),
                n < 9,
                is_account_number(number),
                all == swapped(number, n as int),
                spelled(alts@) == alternates(number[n as int]),
                forall|i: int| 0 <= i < alts@.len() ==> is_digit(#[trigger] alts@[i] as char),
                forall|i: int| 0 <= i < 9 && i != n ==> #[trigger] buffer@[i] as char == number[i],
                texts(matches@) == found + all.take(j as int).filter(has_valid_checksum()),
            decreases alts.len() - j,
        {
            buffer[n] = alts[j];
            let candidate = spell(&buffer);
            proof {
                assert(alternates(number[n as int])[j as int] == spelled(alts@)[j as int]);
                assert(candidate@ =~= all[j as int]);
                assert(all.take(j as int + 1) =~= all.take(j as int).push(all[j as int]));
                all.take(j as int).lemma_filter_push(all[j as int], has_valid_checksum());
            }
            if is_checksum_valid(candidate.as_str()) {
                let ghost before = matches@;
                matches.push(candidate);
                assert(texts(matches@) =~= texts(before).push(candidate@));
            }
            j += 1;
        }
        assert(all.take(alts@.len() as int) =~= all);
        buffer[n] = ch;
        n += 1;
    }
    proof {
        assert forall|i: int| 0 <= i < matches@.len() implies checksum_valid(
            #[trigger] matches@[i]@,
        ) by {
            lemma_adjacent_are_valid(number, 9, i);
            assert(texts(matches@)[i] == matches@[i]@);
        }
        if checksum_valid(number) {
            lemma_valid_number_stands_alone(number, 9);
        }
    }
    matches
}

/// The weighted sum of nine digits, written out.
pub proof fn lemma_weighted_sum_nine(number: Seq<char>)
    requires
        number.len() == 9,
    ensures
        weighted_sum(number) == 9 * digit_value(number[0]) + 8 * digit_value(number[1]) + 7
            * digit_value(number[2]) + 6 * digit_value(number[3]) + 5 * digit_value(number[4]) + 4
            * digit_value(number[5]) + 3 * digit_value(number[6]) + 2 * digit_value(number[7])
            + digit_value(number[8]),
{
    reveal_with_fuel(weighted_sum, 10);
    let s1 = number.drop_first();
    let s2 = s1.drop_first();
    let s3 = s2.drop_first();
    let s4 = s3.drop_first();
    let s5 = s4.drop_first();
    let s6 = s5.drop_first();
    let s7 = s6.drop_first();
    let s8 = s7.drop_first();
    assert(s8.drop_first().len() == 0);
}

/// The checksum tells a number from every number that differs from it in one
/// digit: with one digit of a valid number changed, whatever the place and
/// the digit, the number is no longer valid.
pub proof fn lemma_one_digit_breaks_checksum(number: Seq<char>, place: int, digit: char)
    requires
        checksum_valid(number),
        0 <= place < 9,
        is_digit(digit),
        digit != number[place],
    ensures
        !checksum_valid(number.update(place, digit)),
{
    let other = number.update(place, digit);
    let difference = digit_value(digit) - digit_value(number[place]);
    assert(is_digit(number[place]));
    lemma_weighted_sum_nine(number);
    lemma_weighted_sum_nine(other);
    lemma_changed_sum(weighted_sum(number), weighted_sum(other), difference);
}

/// Eleven is prime: a multiple of 11 to which a weight times the difference
/// of two digits is added is no multiple of 11.
proof fn lemma_changed_sum(sum: int, changed: int, difference: int)
    requires
        sum % 11 == 0,
        -9 <= difference <= 9,
        difference != 0,
        changed == sum + difference || changed == sum + 2 * difference || changed == sum + 3
            * difference || changed == sum + 4 * difference || changed == sum + 5 * difference
            || changed == sum + 6 * difference || changed == sum + 7 * difference || changed
            == sum + 8 * difference || changed == sum + 9 * difference,
    ensures
        changed % 11 != 0,
{
}

/// A valid number stands alone: no number that differs from it in one stroke
/// of one digit is valid, and none is offered for it.
pub proof fn lemma_valid_number_stands_alone(number: Seq<char>, places: nat)
    requires
        checksum_valid(number),
        places <= 9,
    ensures
        adjacent(number, places) == Seq::<Seq<char>>::empty(),
    decreases places,
{
    if places > 0 {
        let place = places - 1;
        lemma_valid_number_stands_alone(number, place as nat);
        let offered = swapped(number, place);
        assert(is_digit(number[place]));
        assert forall|j: int| 0 <= j < offered.len() implies !checksum_valid(
            #[trigger] offered[j],
        ) by {
            lemma_one_digit_breaks_checksum(number, place, alternates(number[place])[j]);
        }
        assert(offered.all(|c: Seq<char>| !has_valid_checksum()(c)));
        offered.lemma_all_neg_filter_empty(has_valid_checksum());
    }
}

/// Every number that [`adjacent`] gives is valid, and is `number` with one
/// digit replaced by one of its alternates.
pub proof fn lemma_adjacent_are_valid(number: Seq<char>, places: nat, i: int)
    requires
        0 <= i < adjacent(number, places).len(),
    ensures
        checksum_valid(adjacent(number, places)[i]),
        exists|place: int, j: int|
            0 <= place < places && 0 <= j < alternates(number[place]).len() && adjacent(
                number,
                places,
            )[i] == #[trigger] number.update(place, #[trigger] alternates(number[place])[j]),
    decreases places,
{
    if places > 0 {
        let before = adjacent(number, (places - 1) as nat);
        let offered = swapped(number, places - 1);
        let kept = offered.filter(has_valid_checksum());
        if i < before.len() {
            lemma_adjacent_are_valid(number, (places - 1) as nat, i);
        } else {
            let found = kept[i - before.len()];
            offered.lemma_filter_pred(has_valid_checksum(), i - before.len());
            assert(kept.contains(found));
            offered.lemma_filter_contains_rev(has_valid_checksum(), found);
            let j = choose|j: int| 0 <= j < offered.len() && offered[j] == found;
            assert(found == number.update(places - 1, alternates(number[places - 1])[j]));
        }
    }
}

/// The table of [`alternates`] holds what the glyphs give: the alternates of
/// a digit are the digits whose pattern is one stroke away from the pattern
/// of that digit. The table has them in ascending order, [`close_matches`]
/// by the stroke that differs.
pub proof fn lemma_alternates_are_close_matches(digit: u8, other: u8)
    requires
        is_digit_byte(digit),
    ensures
        alternates(digit as char).contains(other as char) <==> close_matches(
            pattern_of(digit),
        ).contains(other),
{
    let pattern = pattern_of(digit);
    let all = neighbours(pattern);
    let table = alternates(digit as char);
    if close_matches(pattern).contains(other) {
        let i = choose|i: int|
            0 <= i < close_matches(pattern).len() && close_matches(pattern)[i] == other;
        all.lemma_filter_pred(is_legible(), i);
        all.lemma_filter_contains_rev(is_legible(), other);
        let n = choose|n: int| 0 <= n < all.len() && all[n] == other;
        lemma_round_trip(other, toggled(pattern, n));
        lemma_neighbour_is_alternate(digit, other, n);
    }
    if table.contains(other as char) {
        let n = stroke_between(digit, other);
        lemma_alternate_is_neighbour(digit, other);
        all.lemma_filter_contains(is_legible(), n);
    }
}

/// The seven patterns one stroke away from `pattern`.
proof fn lemma_toggled(pattern: u8)
    ensures
        toggled(pattern, 0) == pattern ^ 1,
        toggled(pattern, 1) == pattern ^ 2,
        toggled(pattern, 2) == pattern ^ 4,
        toggled(pattern, 3) == pattern ^ 8,
        toggled(pattern, 4) == pattern ^ 16,
        toggled(pattern, 5) == pattern ^ 32,
        toggled(pattern, 6) == pattern ^ 64,
{
    assert(pattern ^ (1u8 << 0usize) == pattern ^ 1 && pattern ^ (1u8 << 1usize) == pattern ^ 2
        && pattern ^ (1u8 << 2usize) == pattern ^ 4 && pattern ^ (1u8 << 3usize) == pattern ^ 8
        && pattern ^ (1u8 << 4usize) == pattern ^ 16 && pattern ^ (1u8 << 5usize) == pattern ^ 32
        && pattern ^ (1u8 << 6usize) == pattern ^ 64) by (bit_vector);
}

/// The bit of the stroke in which the patterns of `digit` and of its
/// alternate `other` differ.
spec fn stroke_between(digit: u8, other: u8) -> int {
    let low = if digit < other {
        digit
    } else {
        other
    };
    let high = if digit < other {
        other
    } else {
        digit
    };
    if low == '0' as u8 && high == '8' as u8 {
        2
    } else if low == '1' as u8 && high == '7' as u8 {
        0
    } else if low == '3' as u8 && high == '9' as u8 {
        1
    } else if low == '5' as u8 && high == '6' as u8 {
        4
    } else if low == '5' as u8 && high == '9' as u8 {
        3
    } else if low == '6' as u8 && high == '8' as u8 {
        3
    } else {
        4
    }
}

/// Where `other` is in the table for `digit`, its pattern is the pattern of
/// `digit` with one stroke turned over.
proof fn lemma_alternate_is_neighbour(digit: u8, other: u8)
    requires
        is_digit_byte(digit),
        is_digit_byte(other),
        alternates(digit as char).contains(other as char),
    ensures
        0 <= stroke_between(digit, other) < 7,
        decode(toggled(pattern_of(digit), stroke_between(digit, other))) == other,
{
    lemma_toggled(pattern_of(digit));
    assert(0b0111_1011u8 ^ 4 == 0b0111_1111 && 0b0100_1000u8 ^ 1 == 0b0100_1001 && 0b0110_1101u8
        ^ 2 == 0b0110_1111 && 0b0110_0111u8 ^ 8 == 0b0110_1111 && 0b0110_0111u8 ^ 16
        == 0b0111_0111 && 0b0111_0111u8 ^ 8 == 0b0111_1111 && 0b0111_1111u8 ^ 16 == 0b0110_1111)
        by (bit_vector);
    assert(0b0111_1111u8 ^ 4 == 0b0111_1011 && 0b0100_1001u8 ^ 1 == 0b0100_1000 && 0b0110_1111u8
        ^ 2 == 0b0110_1101 && 0b0110_1111u8 ^ 8 == 0b0110_0111 && 0b0111_0111u8 ^ 16
        == 0b0110_0111 && 0b0111_1111u8 ^ 8 == 0b0111_0111 && 0b0110_1111u8 ^ 16 == 0b0111_1111)
        by (bit_vector);
}

/// Where the pattern of `other` is the pattern of `digit` with the stroke of
/// bit `n` turned over, `other` is in the table for `digit`.
proof fn lemma_neighbour_is_alternate(digit: u8, other: u8, n: int)
    requires
        is_digit_byte(digit),
        is_digit_byte(other),
        0 <= n < 7,
        pattern_of(other) == toggled(pattern_of(digit), n),
    ensures
        alternates(digit as char).contains(other as char),
{
    let p = pattern_of(digit);
    let q = pattern_of(other);
    lemma_toggled(p);
    // The patterns of two digits that differ in one stroke: q is p with one
    // of seven bits turned over.
    lemma_one_stroke_apart(p, q);
    let table = alternates(digit as char);
    if digit == '0' as u8 {
        assert(table[0] == other as char);
    } else if digit == '1' as u8 {
        assert(table[0] == other as char);
    } else if digit == '3' as u8 {
        assert(table[0] == other as char);
    } else if digit == '5' as u8 {
    } else if digit == '6' as u8 {
    } else if digit == '7' as u8 {
        assert(table[0] == other as char);
    } else if digit == '8' as u8 {
    } else if digit == '9' as u8 {
    }
}

/// Which patterns of digits are one stroke apart.
proof fn lemma_one_stroke_apart(p: u8, q: u8)
    by (bit_vector)
    requires
        p == 0b0111_1011 || p == 0b0100_1000 || p == 0b0011_1101 || p == 0b0110_1101 || p
            == 0b0100_1110 || p == 0b0110_0111 || p == 0b0111_0111 || p == 0b0100_1001 || p
            == 0b0111_1111 || p == 0b0110_1111,
        q == 0b0111_1011 || q == 0b0100_1000 || q == 0b0011_1101 || q == 0b0110_1101 || q
            == 0b0100_1110 || q == 0b0110_0111 || q == 0b0111_0111 || q == 0b0100_1001 || q
            == 0b0111_1111 || q == 0b0110_1111,
        p ^ 1 == q || p ^ 2 == q || p ^ 4 == q || p ^ 8 == q || p ^ 16 == q || p ^ 32 == q || p
            ^ 64 == q,
    ensures
        (p == 0b0111_1011 && q == 0b0111_1111) || (p == 0b0111_1111 && q == 0b0111_1011) || (p
            == 0b0100_1000 && q == 0b0100_1001) || (p == 0b0100_1001 && q == 0b0100_1000) || (p
            == 0b0110_1101 && q == 0b0110_1111) || (p == 0b0110_1111 && q == 0b0110_1101) || (p
            == 0b0110_0111 && q == 0b0111_0111) || (p == 0b0111_0111 && q == 0b0110_0111) || (p
            == 0b0110_0111 && q == 0b0110_1111) || (p == 0b0110_1111 && q == 0b0110_0111) || (p
            == 0b0111_0111 && q == 0b0111_1111) || (p == 0b0111_1111 && q == 0b0111_0111) || (p
            == 0b0111_1111 && q == 0b0110_1111) || (p == 0b0110_1111 && q == 0b0111_1111),
{
}

} // verus!
