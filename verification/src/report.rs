//! One line of text for each result.

use vstd::prelude::*;
use vstd::string::*;

use crate::parse::{Error, ErrorView};
use crate::process::{Result, ResultView};
use crate::text::{decimal, texts, to_decimal};

verus! {

/// What `Debug` writes, with `{:?}`, for a vector of strings with the texts
/// `items`.
pub uninterp spec fn debug_listing(items: Seq<Seq<char>>) -> Seq<char>;

/// The line for a number that nothing could be offered for: the number, the
/// tag of what is wrong with it, and the line of the input.
pub open spec fn unresolved(account_number: Seq<char>, tag: Seq<char>, line_number: nat) -> Seq<
    char,
> {
    account_number + " "@ + tag + " [line "@ + decimal(line_number) + "]"@
}

/// The line for a number that several numbers could be offered for, with
/// `listing` for the text that lists them.
pub open spec fn ambiguous(account_number: Seq<char>, line_number: nat, listing: Seq<char>) -> Seq<
    char,
> {
    account_number + " AMB [line "@ + decimal(line_number) + " could be "@ + listing + "]"@
}

/// The line for a number that is not valid as it was read: the one number
/// offered for it where there is just one, the number and `tag` where there
/// is none, the number and the list of what is offered where there are more.
pub open spec fn settled(
    account_number: Seq<char>,
    tag: Seq<char>,
    line_number: nat,
    alternates: Seq<Seq<char>>,
) -> Seq<char> {
    if alternates.len() == 0 {
        unresolved(account_number, tag, line_number)
    } else if alternates.len() == 1 {
        alternates[0]
    } else {
        ambiguous(account_number, line_number, debug_listing(alternates))
    }
}

/// The line for a fault.
pub open spec fn fault_line(error: ErrorView) -> Seq<char> {
    "ERROR: "@ + decimal(error.line_number) + ":"@ + decimal(error.col) + ": row "@ + decimal(
        error.row,
    ) + ": "@ + error.message
}

/// The line for a result.
pub open spec fn formatted(result: ResultView) -> Seq<char> {
    match result {
        ResultView::Success { account_number, line_number } => account_number,
        ResultView::BadChecksum { account_number, alternates, line_number } => settled(
            account_number,
            "ERR"@,
            line_number as nat,
            alternates,
        ),
        ResultView::BadDigits { account_number, alternates, line_number } => settled(
            account_number,
            "ILL"@,
            line_number as nat,
            alternates,
        ),
        ResultView::InvalidCharacter { error } => fault_line(error),
    }
}

/// The line of text for a result.
pub fn format_line(line: Result) -> (text: String)
    ensures
        text@ == formatted(line@),
{
    match line {
        Result::Success { account_number, line_number: _ } => account_number,
        Result::BadChecksum { account_number, line_number, alternates } => settle(
            account_number,
            "ERR",
            line_number,
            alternates,
        ),
        Result::BadDigits { account_number, line_number, alternates } => settle(
            account_number,
            "ILL",
            line_number,
            alternates,
        ),
        Result::InvalidCharacter { error } => format_error(&error),
    }
}

/// The line for a number with the numbers offered for it.
fn settle(account_number: String, tag: &str, line_number: u32, alternates: Vec<String>) -> (text:
    String)
    ensures
        text@ == settled(account_number@, tag@, line_number as nat, texts(alternates@)),
{
    let mut alternates = alternates;
    if alternates.len() == 0 {
        format_unresolved(account_number.as_str(), tag, line_number)
    } else if alternates.len() == 1 {
        alternates.pop().unwrap()
    } else {
        let listing = debug_list(&alternates);
        format_ambiguous(account_number.as_str(), line_number, listing.as_str())
    }
}

/// The line for a number that nothing could be offered for.
pub fn format_unresolved(account_number: &str, tag: &str, line_number: u32) -> (text: String)
    ensures
        text@ == unresolved(account_number@, tag@, line_number as nat),
{
    let mut text = String::from_str(account_number);
    text.append(" ");
    text.append(tag);
    text.append(" [line ");
    text.append(to_decimal(line_number as u64).as_str());
    text.append("]");
    text
}

/// The line for a number that several numbers could be offered for, with
/// `listing` for the text that lists them.
pub fn format_ambiguous(account_number: &str, line_number: u32, listing: &str) -> (text: String)
    ensures
        text@ == ambiguous(account_number@, line_number as nat, listing@),
{
    let mut text = String::from_str(account_number);
    text.append(" AMB [line ");
    text.append(to_decimal(line_number as u64).as_str());
    text.append(" could be ");
    text.append(listing);
    text.append("]");
    text
}

/// The line for a fault.
pub fn format_error(error: &Error) -> (text: String)
    ensures
        text@ == fault_line(error@),
{
    let mut text = String::from_str("ERROR: ");
    text.append(to_decimal(error.line_number as u64).as_str());
    text.append(":");
    text.append(to_decimal(error.col as u64).as_str());
    text.append(": row ");
    text.append(to_decimal(error.row as u64).as_str());
    text.append(": ");
    text.append(error.message.as_str());
    text
}

/// The list of `items` as `format!` writes a vector of strings for `{:?}`,
/// that is, as `Debug` writes it: in square brackets, separated by a comma
/// and a space, each string in double quotes with the characters that need
/// it escaped. Nothing of this is proved. The contract claims only that the
/// text is [`debug_listing`] of the texts of the strings: that it depends on
/// these texts alone.
#[verifier::external_body]
fn debug_list(items: &Vec<String>) -> (listing: String)
    ensures
        listing@ == debug_listing(texts(items@)),
{
    format!("{:?}", items)
}

} // verus!
