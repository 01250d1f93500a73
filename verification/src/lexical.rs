//! The lexical layer shared by the expression and statement grammars: white
//! space and comments, identifiers, and numeric literals. Every scanner works
//! on the characters of the input and a position in them.

use crate::expression::{NumberLiteral, NumberLiteralModel};
use crate::text::{char_is_alphanumeric, char_is_whitespace, is_alphanumeric, is_whitespace, string_of};
use vstd::prelude::*;

verus! {

/// Whether `c` is one of the ten decimal digits.
pub open spec fn is_digit(c: char) -> bool {
    48 <= c as u32 <= 57
}

/// Whether `c` can stand in an identifier.
pub open spec fn is_name_char(c: char) -> bool {
    is_alphanumeric(c) || c == '_'
}

/// The position just behind the end of the line that `at` is in: behind the
/// next line feed, or the end of the input.
pub open spec fn line_end(input: Seq<char>, at: int) -> int
    decreases input.len() - at,
{
    if at < 0 || at >= input.len() {
        input.len() as int
    } else if input[at] == '\n' {
        at + 1
    } else {
        line_end(input, at + 1)
    }
}

/// The end of a line lies at or behind the position asked about, within the
/// input.
pub proof fn lemma_line_end(input: Seq<char>, at: int)
    requires
        0 <= at <= input.len(),
    ensures
        at <= line_end(input, at) <= input.len(),
    decreases input.len() - at,
{
    if at < input.len() && input[at] != '\n' {
        lemma_line_end(input, at + 1);
    }
}

/// The first position at or behind `at` that is neither white space nor
/// inside a comment. A comment runs from `//` to the end of its line.
pub open spec fn skip_space(input: Seq<char>, at: int) -> int
    decreases input.len() - at,
{
    if at < 0 || at >= input.len() {
        at
    } else if is_whitespace(input[at]) {
        skip_space(input, at + 1)
    } else if at + 1 < input.len() && input[at] == '/' && input[at + 1] == '/' {
        proof {
            lemma_line_end(input, at + 2);
        }
        skip_space(input, line_end(input, at + 2))
    } else {
        at
    }
}

/// Skipping space goes forwards, stays within the input, and leaves nothing
/// to skip.
pub proof fn lemma_skip_space(input: Seq<char>, at: int)
    requires
        0 <= at <= input.len(),
    ensures
        at <= skip_space(input, at) <= input.len(),
        skip_space(input, skip_space(input, at)) == skip_space(input, at),
    decreases input.len() - at,
{
    if at < input.len() {
        if is_whitespace(input[at]) {
            lemma_skip_space(input, at + 1);
        } else if at + 1 < input.len() && input[at] == '/' && input[at + 1] == '/' {
            lemma_line_end(input, at + 2);
            lemma_skip_space(input, line_end(input, at + 2));
        }
    }
}

/// The end of the longest run of digits that starts at `at`.
pub open spec fn digits_end(input: Seq<char>, at: int) -> int
    decreases input.len() - at,
{
    if 0 <= at < input.len() && is_digit(input[at]) {
        digits_end(input, at + 1)
    } else {
        at
    }
}

/// A run of digits ends at or behind its start, within the input, and holds
/// digits only.
pub proof fn lemma_digits_end(input: Seq<char>, at: int)
    requires
        0 <= at <= input.len(),
    ensures
        at <= digits_end(input, at) <= input.len(),
        forall|k: int| at <= k < digits_end(input, at) ==> is_digit(#[trigger] input[k]),
    decreases input.len() - at,
{
    if at < input.len() && is_digit(input[at]) {
        lemma_digits_end(input, at + 1);
    }
}

/// The end of the longest run of identifier characters that starts at `at`.
pub open spec fn name_end(input: Seq<char>, at: int) -> int
    decreases input.len() - at,
{
    if 0 <= at < input.len() && is_name_char(input[at]) {
        name_end(input, at + 1)
    } else {
        at
    }
}

/// The identifier that starts at `at`, with the position behind it: one or
/// more letters, numbers and underscores, the first of them no digit.
pub open spec fn identifier(input: Seq<char>, at: int) -> Option<(Seq<char>, int)> {
    if 0 <= at < input.len() && !is_digit(input[at]) && name_end(input, at) > at {
        Some((input.subrange(at, name_end(input, at)), name_end(input, at)))
    } else {
        None
    }
}

/// The number that a run of decimal digits writes.
pub open spec fn decimal_value(digits: Seq<char>) -> nat
    decreases digits.len(),
{
    if digits.len() == 0 {
        0
    } else {
        (decimal_value(digits.drop_last()) * 10 + (digits.last() as u32 - 48)) as nat
    }
}

/// Whether a sign stands at `at`.
pub open spec fn sign_at(input: Seq<char>, at: int) -> bool {
    0 <= at < input.len() && (input[at] == '+' || input[at] == '-')
}

/// Whether a minus sign stands at `at`.
pub open spec fn minus_at(input: Seq<char>, at: int) -> bool {
    0 <= at < input.len() && input[at] == '-'
}

/// The position behind the sign at `at`, if there is one.
pub open spec fn behind_sign(input: Seq<char>, at: int) -> int {
    if sign_at(input, at) {
        at + 1
    } else {
        at
    }
}

/// Whether a decimal point followed by a digit stands at `at`.
pub open spec fn fraction_at(input: Seq<char>, at: int) -> bool {
    0 <= at < input.len() && input[at] == '.' && digits_end(input, at + 1) > at + 1
}

/// Whether an exponent stands at `at`: the letter `e`, an optional sign,
/// and at least one digit.
pub open spec fn exponent_at(input: Seq<char>, at: int) -> bool {
    0 <= at < input.len() && input[at] == 'e' && digits_end(input, behind_sign(input, at + 1))
        > behind_sign(input, at + 1)
}

/// The numeric literal that starts at `at`, with the position behind it: an
/// optional sign, digits, a decimal point with digits behind it (one of the
/// two at least), and an optional exponent. An exponent that does not fit
/// 32 bits does not stop the scan; it marks the literal as malformed.
pub open spec fn numeric_literal(input: Seq<char>, at: int) -> Option<(NumberLiteralModel, int)> {
    let whole_from = behind_sign(input, at);
    let whole_to = digits_end(input, whole_from);
    let has_fraction = fraction_at(input, whole_to);
    let fraction_to = if has_fraction {
        digits_end(input, whole_to + 1)
    } else {
        whole_to
    };
    let has_exponent = exponent_at(input, fraction_to);
    let exponent_from = behind_sign(input, fraction_to + 1);
    let exponent_to = digits_end(input, exponent_from);
    let amount = decimal_value(input.subrange(exponent_from, exponent_to));
    if at < 0 || at > input.len() || (whole_to == whole_from && !has_fraction) {
        None
    } else {
        Some(
            (
                NumberLiteralModel {
                    negative: minus_at(input, at),
                    integer_part: if whole_to > whole_from {
                        Some(input.subrange(whole_from, whole_to))
                    } else {
                        None
                    },
                    fractional_part: if has_fraction {
                        Some(input.subrange(whole_to + 1, fraction_to))
                    } else {
                        None
                    },
                    exponent: if !has_exponent {
                        None
                    } else if amount > i32::MAX {
                        Some(0i32)
                    } else if minus_at(input, fraction_to + 1) {
                        Some((-amount) as i32)
                    } else {
                        Some(amount as i32)
                    },
                    malformed: has_exponent && amount > i32::MAX,
                },
                if has_exponent {
                    exponent_to
                } else {
                    fraction_to
                },
            ),
        )
    }
}

/// An identifier ends behind where it starts, within the input.
pub proof fn lemma_identifier(input: Seq<char>, at: int)
    requires
        0 <= at <= input.len(),
    ensures
        identifier(input, at) matches Some((_, next)) ==> at < next <= input.len(),
{
    lemma_name_end(input, at);
}

proof fn lemma_name_end(input: Seq<char>, at: int)
    requires
        0 <= at <= input.len(),
    ensures
        at <= name_end(input, at) <= input.len(),
    decreases input.len() - at,
{
    if at < input.len() && is_name_char(input[at]) {
        lemma_name_end(input, at + 1);
    }
}

/// A run of identifier characters that is followed by another character, or
/// by the end of the input, ends there.
pub proof fn lemma_name_run(input: Seq<char>, from: int, to: int)
    requires
        0 <= from <= to <= input.len(),
        forall|k: int| from <= k < to ==> is_name_char(#[trigger] input[k]),
        to < input.len() ==> !is_name_char(input[to]),
    ensures
        name_end(input, from) == to,
    decreases to - from,
{
    if from < to {
        lemma_name_run(input, from + 1, to);
    }
}

/// A run of digits that is followed by another character, or by the end of
/// the input, ends there.
pub proof fn lemma_digit_run(input: Seq<char>, from: int, to: int)
    requires
        0 <= from <= to <= input.len(),
        forall|k: int| from <= k < to ==> is_digit(#[trigger] input[k]),
        to < input.len() ==> !is_digit(input[to]),
    ensures
        digits_end(input, from) == to,
    decreases to - from,
{
    if from < to {
        lemma_digit_run(input, from + 1, to);
    }
}

/// White space that is followed by a character that is neither white space
/// nor a slash, or by the end of the input, is skipped up to there.
pub proof fn lemma_space_run(input: Seq<char>, from: int, to: int)
    requires
        0 <= from <= to <= input.len(),
        forall|k: int| from <= k < to ==> is_whitespace(#[trigger] input[k]),
        to < input.len() ==> !is_whitespace(input[to]) && input[to] != '/',
    ensures
        skip_space(input, from) == to,
    decreases to - from,
{
    if from < to {
        lemma_space_run(input, from + 1, to);
    }
}

/// A numeric literal ends behind where it starts, within the input.
pub proof fn lemma_numeric_literal(input: Seq<char>, at: int)
    requires
        0 <= at <= input.len(),
    ensures
        numeric_literal(input, at) matches Some((_, next)) ==> at < next <= input.len(),
{
    let whole_from = behind_sign(input, at);
    lemma_digits_end(input, whole_from);
    let whole_to = digits_end(input, whole_from);
    if whole_to < input.len() {
        lemma_digits_end(input, whole_to + 1);
    }
    let fraction_to = if fraction_at(input, whole_to) {
        digits_end(input, whole_to + 1)
    } else {
        whole_to
    };
    if fraction_to < input.len() {
        let exponent_from = behind_sign(input, fraction_to + 1);
        if exponent_from <= input.len() {
            lemma_digits_end(input, exponent_from);
        }
    }
}


/// Whether `c` is a decimal digit.
pub(crate) fn char_is_digit(c: char) -> (b: bool)
    ensures
        b == is_digit(c),
{
    let code: u32 = c as u32;
    48 <= code && code <= 57
}

/// Whether `c` can stand in an identifier.
pub(crate) fn char_is_name_char(c: char) -> (b: bool)
    ensures
        b == is_name_char(c),
{
    char_is_alphanumeric(c) || c == '_'
}

/// Skips white space and comments.
pub(crate) fn scan_space(input: &Vec<char>, at: usize) -> (next: usize)
    requires
        at <= input@.len(),
    ensures
        next == skip_space(input@, at as int),
        at <= next <= input@.len(),
{
    let mut i: usize = at;
    proof {
        lemma_skip_space(input@, at as int);
    }
    loop
        invariant
            at <= i <= input@.len(),
            skip_space(input@, i as int) == skip_space(input@, at as int),
        ensures
            i == skip_space(input@, at as int),
            at <= i <= input@.len(),
        decreases input@.len() - i,
    {
        if i >= input.len() {
            break;
        }
        if char_is_whitespace(input[i]) {
            i = i + 1;
        } else if i + 1 < input.len() && input[i] == '/' && input[i + 1] == '/' {
            let mut j: usize = i + 2;
            while j < input.len() && input[j] != '\n'
                invariant
                    i + 2 <= j <= input@.len(),
                    line_end(input@, j as int) == line_end(input@, i + 2),
                decreases input@.len() - j,
            {
                j = j + 1;
            }
            if j < input.len() {
                j = j + 1;
            }
            i = j;
        } else {
            break;
        }
    }
    i
}

/// Skips digits.
pub(crate) fn scan_digits(input: &Vec<char>, at: usize) -> (next: usize)
    requires
        at <= input@.len(),
    ensures
        next == digits_end(input@, at as int),
        at <= next <= input@.len(),
{
    let mut i: usize = at;
    while i < input.len() && char_is_digit(input[i])
        invariant
            at <= i <= input@.len(),
            digits_end(input@, i as int) == digits_end(input@, at as int),
        decreases input@.len() - i,
    {
        i = i + 1;
    }
    i
}

/// Reads an identifier.
pub(crate) fn scan_identifier(input: &Vec<char>, at: usize) -> (found: Option<(String, usize)>)
    requires
        at <= input@.len(),
    ensures
        match found {
            Some((name, next)) => identifier(input@, at as int) == Some((name@, next as int)) && at
                < next <= input@.len(),
            None => identifier(input@, at as int).is_none(),
        },
{
    if at >= input.len() || char_is_digit(input[at]) {
        return None;
    }
    let mut i: usize = at;
    while i < input.len() && char_is_name_char(input[i])
        invariant
            at <= i <= input@.len(),
            name_end(input@, i as int) == name_end(input@, at as int),
        decreases input@.len() - i,
    {
        i = i + 1;
    }
    if i > at {
        Some((string_of(input, at, i), i))
    } else {
        None
    }
}

proof fn lemma_decimal_value_push(digits: Seq<char>, digit: char)
    requires
        is_digit(digit),
    ensures
        decimal_value(digits.push(digit)) == decimal_value(digits) * 10 + (digit as u32 - 48),
{
    assert(digits.push(digit).drop_last() =~= digits);
}

/// The number that the digits from `from` up to `to` write, unless it is
/// over the largest 32-bit integer.
fn read_decimal(input: &Vec<char>, from: usize, to: usize) -> (amount: Option<i32>)
    requires
        from <= to <= input@.len(),
        forall|k: int| from <= k < to ==> is_digit(#[trigger] input@[k]),
    ensures
        match amount {
            Some(n) => n == decimal_value(input@.subrange(from as int, to as int)),
            None => decimal_value(input@.subrange(from as int, to as int)) > i32::MAX,
        },
{
    let mut total: u64 = 0;
    let mut over: bool = false;
    let mut i: usize = from;
    assert(input@.subrange(from as int, from as int) =~= Seq::<char>::empty());
    while i < to
        invariant
            from <= i <= to <= input@.len(),
            forall|k: int| from <= k < to ==> is_digit(#[trigger] input@[k]),
            !over ==> total == decimal_value(input@.subrange(from as int, i as int)) && total
                <= i32::MAX,
            over ==> decimal_value(input@.subrange(from as int, i as int)) > i32::MAX,
        decreases to - i,
    {
        let digit: u32 = input[i] as u32 - 48;
        proof {
            assert(is_digit(input@[i as int]));
            assert(input@.subrange(from as int, i + 1) =~= input@.subrange(
                from as int,
                i as int,
            ).push(input@[i as int]));
            lemma_decimal_value_push(input@.subrange(from as int, i as int), input@[i as int]);
        }
        if !over {
            total = total * 10 + digit as u64;
            if total > 0x7fff_ffff {
                over = true;
            }
        }
        i = i + 1;
    }
    if over {
        None
    } else {
        Some(total as i32)
    }
}

/// Reads a numeric literal.
pub(crate) fn scan_numeric_literal(input: &Vec<char>, at: usize) -> (found: Option<(NumberLiteral, usize)>)
    requires
        at <= input@.len(),
    ensures
        match found {
            Some((literal, next)) => numeric_literal(input@, at as int) == Some(
                (literal@, next as int),
            ) && at < next <= input@.len(),
            None => numeric_literal(input@, at as int).is_none(),
        },
{
    let signed: bool = at < input.len() && (input[at] == '+' || input[at] == '-');
    let negative: bool = at < input.len() && input[at] == '-';
    let whole_from: usize = if signed {
        at + 1
    } else {
        at
    };
    let whole_to: usize = scan_digits(input, whole_from);
    let mut fraction_to: usize = whole_to;
    let mut has_fraction: bool = false;
    if whole_to < input.len() && input[whole_to] == '.' {
        let end = scan_digits(input, whole_to + 1);
        if end > whole_to + 1 {
            has_fraction = true;
            fraction_to = end;
        }
    }
    if whole_to == whole_from && !has_fraction {
        return None;
    }
    let integer_part: Option<String> = if whole_to > whole_from {
        Some(string_of(input, whole_from, whole_to))
    } else {
        None
    };
    let fractional_part: Option<String> = if has_fraction {
        Some(string_of(input, whole_to + 1, fraction_to))
    } else {
        None
    };
    let mut exponent: Option<i32> = None;
    let mut malformed: bool = false;
    let mut next: usize = fraction_to;
    if fraction_to < input.len() && input[fraction_to] == 'e' {
        let exponent_signed: bool = fraction_to + 1 < input.len() && (input[fraction_to + 1] == '+'
            || input[fraction_to + 1] == '-');
        let exponent_negative: bool = fraction_to + 1 < input.len() && input[fraction_to + 1]
            == '-';
        let exponent_from: usize = if exponent_signed {
            fraction_to + 2
        } else {
            fraction_to + 1
        };
        let exponent_to: usize = scan_digits(input, exponent_from);
        if exponent_to > exponent_from {
            proof {
                lemma_digits_end(input@, exponent_from as int);
            }
            match read_decimal(input, exponent_from, exponent_to) {
                Some(amount) => {
                    exponent = Some(
                        if exponent_negative {
                            -amount
                        } else {
                            amount
                        },
                    );
                },
                None => {
                    exponent = Some(0);
                    malformed = true;
                },
            }
            next = exponent_to;
        }
    }
    Some((NumberLiteral { negative, integer_part, fractional_part, exponent, malformed }, next))
}

} // verus!
