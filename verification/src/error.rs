//! The errors of the dice roller, and the text that describes each.

use vstd::prelude::*;

verus! {

/// Why a call on the dice roller failed.
#[derive(Debug, Clone, PartialEq)]
pub enum DiceError {
    /// A die was asked for with this number of sides, which is not positive.
    InvalidSides(i32),
    /// This number of dice was asked for, which is not positive.
    InvalidCount(i32),
    /// This text is not dice notation that can be rolled.
    InvalidNotation(String),
    /// A text was absent where one was expected. The roller itself never
    /// reports this; it is there for layers that pass texts across a boundary.
    NullPointer,
}

/// What a call on the dice roller gives: a value or the reason it failed.
pub type DiceResult<T> = Result<T, DiceError>;

/// A `DiceError` with its text taken as a sequence of characters.
pub enum ErrorView {
    InvalidSides(i32),
    InvalidCount(i32),
    InvalidNotation(Seq<char>),
    NullPointer,
}

impl View for DiceError {
    type V = ErrorView;

    open spec fn view(&self) -> ErrorView {
        match self {
            DiceError::InvalidSides(sides) => ErrorView::InvalidSides(*sides),
            DiceError::InvalidCount(count) => ErrorView::InvalidCount(*count),
            DiceError::InvalidNotation(text) => ErrorView::InvalidNotation(text@),
            DiceError::NullPointer => ErrorView::NullPointer,
        }
    }
}

/// The character that stands for the digit `d`.
pub open spec fn digit_char(d: nat) -> char
    recommends
        d < 10,
{
    ((48 + d) as u8) as char
}

/// The decimal digits of `n`, most significant first, without leading zeros.
pub open spec fn decimal_digits(n: nat) -> Seq<char>
    decreases n,
{
    if n < 10 {
        seq![digit_char(n)]
    } else {
        decimal_digits(n / 10).push(digit_char(n % 10))
    }
}

/// The decimal text of `n`: a minus sign where it is negative, then its digits.
pub open spec fn decimal_text(n: int) -> Seq<char> {
    if n < 0 {
        seq!['-'] + decimal_digits((-n) as nat)
    } else {
        decimal_digits(n as nat)
    }
}

/// The text that describes an error.
pub open spec fn message_text(error: ErrorView) -> Seq<char> {
    match error {
        ErrorView::InvalidSides(sides) => "Invalid number of sides: "@ + decimal_text(sides as int),
        ErrorView::InvalidCount(count) => "Invalid count: "@ + decimal_text(count as int),
        ErrorView::InvalidNotation(text) => "Invalid dice notation: "@ + text,
        ErrorView::NullPointer => "Null pointer error"@,
    }
}

/// `String::push` of std appends one character to the end of the string and
/// leaves the rest as it was.
pub assume_specification[ String::push ](text: &mut String, ch: char)
    ensures
        final(text)@ == old(text)@.push(ch),
;

/// Appends the decimal digits of `n` to `out`.
fn push_digits(out: &mut String, n: u32)
    ensures
        final(out)@ == old(out)@ + decimal_digits(n as nat),
    decreases n,
{
    if n >= 10 {
        push_digits(out, n / 10);
    }
    let digit: u8 = (n % 10) as u8;
    out.push((48 + digit) as char);
}

/// Appends the decimal text of `n` to `out`.
fn push_decimal(out: &mut String, n: i32)
    ensures
        final(out)@ == old(out)@ + decimal_text(n as int),
{
    if n < 0 {
        out.push('-');
        push_digits(out, (-(n as i64)) as u32);
    } else {
        push_digits(out, n as u32);
    }
}

impl DiceError {
    /// The text that describes this error.
    pub fn message(&self) -> (text: String)
        ensures
            text@ == message_text(self@),
    {
        match self {
            DiceError::InvalidSides(sides) => {
                let mut text = "Invalid number of sides: ".to_owned();
                push_decimal(&mut text, *sides);
                text
            },
            DiceError::InvalidCount(count) => {
                let mut text = "Invalid count: ".to_owned();
                push_decimal(&mut text, *count);
                text
            },
            DiceError::InvalidNotation(notation) => {
                let mut text = "Invalid dice notation: ".to_owned();
                text.append(notation.as_str());
                text
            },
            DiceError::NullPointer => "Null pointer error".to_owned(),
        }
    }
}

} // verus!
