//! Dice notation: texts such as `3d6`, `d20`, `2D8-1` or `1d6+5`.
//!
//! ```text
//! notation  := count? ("d"|"D") sides modifier?
//! count     := digit+            ; 1 where it is left out
//! sides     := digit+
//! modifier  := ("+"|"-") digit+
//! ```
//!
//! No white space, no sign before the count, nothing after the modifier.
//! The count and the sides are at least 1, and no number exceeds `i32::MAX`.

use crate::error::{DiceError, ErrorView};
use vstd::prelude::*;

verus! {

/// A request to roll: `count` dice of `sides` sides each, and a number to add
/// to their sum.
#[derive(Debug, Clone, Copy, PartialEq, Eq)]
pub struct RollSpec {
    /// How many dice are rolled: at least 1.
    pub count: i32,
    /// How many sides each die has: at least 1.
    pub sides: i32,
    /// What is added to the sum of the dice; 0 where the notation has no
    /// modifier.
    pub modifier: i32,
    /// Whether the notation has a modifier.
    pub has_modifier: bool,
}

impl RollSpec {
    /// What every parsed request satisfies.
    pub open spec fn wf(self) -> bool {
        &&& self.count >= 1
        &&& self.sides >= 1
        &&& -i32::MAX <= self.modifier <= i32::MAX
        &&& !self.has_modifier ==> self.modifier == 0
    }

    /// The least that the request can come to: every die shows 1.
    pub open spec fn least(self) -> int {
        self.count + self.modifier
    }

    /// The most that the request can come to: every die shows its last side.
    pub open spec fn most(self) -> int {
        self.count * self.sides + self.modifier
    }
}

/// Whether `c` is a decimal digit.
pub open spec fn is_digit(c: char) -> bool {
    '0' <= c && c <= '9'
}

/// The number that the digit `c` stands for.
pub open spec fn digit_value(c: char) -> nat
    recommends
        is_digit(c),
{
    (c as u32 - '0' as u32) as nat
}

/// Whether `c` is the marker between the count and the sides.
pub open spec fn is_marker(c: char) -> bool {
    c == 'd' || c == 'D'
}

/// Whether `c` is the sign of a modifier.
pub open spec fn is_sign(c: char) -> bool {
    c == '+' || c == '-'
}

/// Whether every character of `s` is a digit.
pub open spec fn all_digits(s: Seq<char>) -> bool {
    forall|i: int| 0 <= i < s.len() ==> is_digit(#[trigger] s[i])
}

/// The number that the digits `s` write in base ten; 0 for no digits.
pub open spec fn decimal_value(s: Seq<char>) -> nat
    recommends
        all_digits(s),
    decreases s.len(),
{
    if s.len() == 0 {
        0
    } else {
        decimal_value(s.drop_last()) * 10 + digit_value(s.last())
    }
}

/// Where the digits that begin at `from` end: the first position at or after
/// `from` that holds no digit, or the length of `s`.
pub open spec fn digits_end(s: Seq<char>, from: int) -> int
    decreases s.len() - from,
{
    if 0 <= from < s.len() && is_digit(s[from]) {
        digits_end(s, from + 1)
    } else {
        from
    }
}

/// What the modifier `tail` adds, where `tail` is what follows the sides:
/// nothing where it is empty, else the number after its sign. `None` where
/// `tail` is no modifier or its number exceeds `i32::MAX`.
pub open spec fn parse_modifier(tail: Seq<char>) -> Option<(i32, bool)> {
    if tail.len() == 0 {
        Some((0i32, false))
    } else {
        let digits = tail.skip(1);
        if is_sign(tail[0]) && digits.len() > 0 && all_digits(digits) && decimal_value(digits)
            <= i32::MAX {
            if tail[0] == '-' {
                Some(((-decimal_value(digits)) as i32, true))
            } else {
                Some((decimal_value(digits) as i32, true))
            }
        } else {
            None
        }
    }
}

/// What `text` asks for, or `None` where it is not valid notation.
///
/// The digits at the front are the count; a marker must follow them, then at
/// least one digit for the sides; what is left is the modifier.
pub open spec fn parse_spec(text: Seq<char>) -> Option<RollSpec> {
    let marker = digits_end(text, 0);
    let end = digits_end(text, marker + 1);
    let count = if marker == 0 {
        1
    } else {
        decimal_value(text.subrange(0, marker))
    };
    if marker >= text.len() || !is_marker(text[marker]) || end == marker + 1 {
        None
    } else {
        let sides = decimal_value(text.subrange(marker + 1, end));
        if count < 1 || count > i32::MAX || sides < 1 || sides > i32::MAX {
            None
        } else {
            match parse_modifier(text.skip(end)) {
                Some((modifier, has_modifier)) => Some(
                    RollSpec { count: count as i32, sides: sides as i32, modifier, has_modifier },
                ),
                None => None,
            }
        }
    }
}

/// The digits that begin at `from` go on to `end` and no further, where
/// every position between the two holds a digit and `end` holds none.
pub proof fn lemma_digits_end(s: Seq<char>, from: int, end: int)
    requires
        0 <= from <= end <= s.len(),
        all_digits(s.subrange(from, end)),
        end < s.len() ==> !is_digit(s[end]),
    ensures
        digits_end(s, from) == end,
    decreases end - from,
{
    if from < end {
        assert(s.subrange(from, end)[0] == s[from]);
        assert forall|i: int| 0 <= i < end - (from + 1) implies is_digit(
            #[trigger] s.subrange(from + 1, end)[i],
        ) by {
            assert(s.subrange(from + 1, end)[i] == s.subrange(from, end)[i + 1]);
        }
        lemma_digits_end(s, from + 1, end);
    }
}

/// The digits that begin at `from` end within `s`; digits fill the span and
/// none stands at its end.
pub proof fn lemma_digits_end_span(s: Seq<char>, from: int)
    requires
        0 <= from <= s.len(),
    ensures
        from <= digits_end(s, from) <= s.len(),
        all_digits(s.subrange(from, digits_end(s, from))),
        digits_end(s, from) < s.len() ==> !is_digit(s[digits_end(s, from)]),
    decreases s.len() - from,
{
    if from < s.len() && is_digit(s[from]) {
        lemma_digits_end_span(s, from + 1);
        let end = digits_end(s, from);
        assert forall|i: int| 0 <= i < end - from implies is_digit(
            #[trigger] s.subrange(from, end)[i],
        ) by {
            if i > 0 {
                assert(s.subrange(from, end)[i] == s.subrange(from + 1, end)[i - 1]);
            }
        }
    }
}

/// One more digit multiplies the value by ten and adds the digit.
pub proof fn lemma_decimal_value_push(s: Seq<char>, c: char)
    ensures
        decimal_value(s.push(c)) == decimal_value(s) * 10 + digit_value(c),
{
    assert(s.push(c).drop_last() =~= s);
}

/// Whether `text` is written as the grammar says: the digits `count`, which
/// may be none, the marker, the digits `sides`, at least one, and `tail`,
/// which is empty or a sign and at least one digit.
pub open spec fn composed(
    text: Seq<char>,
    count: Seq<char>,
    marker: char,
    sides: Seq<char>,
    tail: Seq<char>,
) -> bool {
    &&& text == count + seq![marker] + sides + tail
    &&& all_digits(count)
    &&& is_marker(marker)
    &&& all_digits(sides)
    &&& sides.len() > 0
    &&& tail.len() > 0 ==> is_sign(tail[0]) && tail.len() > 1 && all_digits(tail.skip(1))
}

/// What a text of these parts asks for: the count is 1 where no digits are
/// given for it. `None` where the count or the sides are 0, or a number
/// exceeds `i32::MAX`.
pub open spec fn meaning(count: Seq<char>, sides: Seq<char>, tail: Seq<char>) -> Option<RollSpec> {
    let dice = if count.len() == 0 {
        1
    } else {
        decimal_value(count)
    };
    let faces = decimal_value(sides);
    if dice < 1 || dice > i32::MAX || faces < 1 || faces > i32::MAX {
        None
    } else {
        match parse_modifier(tail) {
            Some((modifier, has_modifier)) => Some(
                RollSpec { count: dice as i32, sides: faces as i32, modifier, has_modifier },
            ),
            None => None,
        }
    }
}

/// A text that is written as the grammar says is read by its parts.
pub proof fn lemma_parse_composed(
    text: Seq<char>,
    count: Seq<char>,
    marker: char,
    sides: Seq<char>,
    tail: Seq<char>,
)
    requires
        composed(text, count, marker, sides, tail),
    ensures
        parse_spec(text) == meaning(count, sides, tail),
{
    let at = count.len() as int;
    let end = at + 1 + sides.len();
    assert(text.subrange(0, at) =~= count);
    assert(text[at] == marker);
    lemma_digits_end(text, 0, at);
    assert(text.subrange(at + 1, end) =~= sides);
    if tail.len() > 0 {
        assert(text[end] == tail[0]);
    }
    lemma_digits_end(text, at + 1, end);
    assert(text.skip(end) =~= tail);
}

/// A text that parses is written as the grammar says.
pub proof fn lemma_parse_decomposes(text: Seq<char>)
    requires
        parse_spec(text) is Some,
    ensures
        exists|count: Seq<char>, marker: char, sides: Seq<char>, tail: Seq<char>|
            #[trigger] composed(text, count, marker, sides, tail),
{
    let at = digits_end(text, 0);
    lemma_digits_end_span(text, 0);
    lemma_digits_end_span(text, at + 1);
    let end = digits_end(text, at + 1);
    let count = text.subrange(0, at);
    let sides = text.subrange(at + 1, end);
    let tail = text.skip(end);
    assert(text =~= count + seq![text[at]] + sides + tail);
    assert(composed(text, count, text[at], sides, tail));
}

/// Every request that `parse_spec` gives is well formed.
pub proof fn lemma_parse_spec_wf(text: Seq<char>)
    ensures
        parse_spec(text) matches Some(spec) ==> spec.wf(),
{
}

/// Reads the digits of `chars` that begin at `from`. Returns where they end
/// and the number they write, or `None` for the number where it exceeds
/// `i32::MAX`.
fn read_number(chars: &Vec<char>, from: usize) -> (read: (usize, Option<i32>))
    requires
        from <= chars.len(),
    ensures
        read.0 == digits_end(chars@, from as int),
        from <= read.0 <= chars.len(),
        all_digits(chars@.subrange(from as int, read.0 as int)),
        match read.1 {
            Some(value) => value == decimal_value(chars@.subrange(from as int, read.0 as int)),
            None => decimal_value(chars@.subrange(from as int, read.0 as int)) > i32::MAX,
        },
{
    let mut end: usize = from;
    let mut value: u64 = 0;
    let mut fits: bool = true;
    while end < chars.len() && '0' <= chars[end] && chars[end] <= '9'
        invariant
            from <= end <= chars.len(),
            all_digits(chars@.subrange(from as int, end as int)),
            fits ==> value == decimal_value(chars@.subrange(from as int, end as int)),
            fits ==> value <= i32::MAX,
            !fits ==> decimal_value(chars@.subrange(from as int, end as int)) > i32::MAX,
        decreases chars.len() - end,
    {
        let digit: u64 = (chars[end] as u32 - '0' as u32) as u64;
        proof {
            let seen = chars@.subrange(from as int, end as int);
            assert(chars@.subrange(from as int, end + 1) =~= seen.push(chars@[end as int]));
            lemma_decimal_value_push(seen, chars@[end as int]);
        }
        if fits {
            value = value * 10 + digit;
            if value > 0x7fff_ffff {
                fits = false;
            }
        }
        end = end + 1;
    }
    proof {
        lemma_digits_end(chars@, from as int, end as int);
    }
    if fits {
        (end, Some(value as i32))
    } else {
        (end, None)
    }
}

/// Copies the characters of `text` into a vector.
fn chars_of(text: &str) -> (chars: Vec<char>)
    ensures
        chars@ == text@,
{
    let mut chars: Vec<char> = Vec::new();
    for c in it: text.chars()
        invariant
            chars@ == it.seq().take(it.index() as int),
    {
        chars.push(c);
    }
    chars
}

/// The error for a text that is not valid notation.
fn invalid(text: &str) -> (error: DiceError)
    ensures
        error@ == ErrorView::InvalidNotation(text@),
{
    DiceError::InvalidNotation(text.to_owned())
}

/// Parses dice notation. Nothing is rolled.
pub fn parse(text: &str) -> (result: Result<RollSpec, DiceError>)
    ensures
        match parse_spec(text@) {
            Some(spec) => result == Ok::<RollSpec, DiceError>(spec),
            None => result matches Err(error) && error@ == ErrorView::InvalidNotation(text@),
        },
        result matches Ok(spec) ==> spec.wf(),
{
    let chars = chars_of(text);
    let len = chars.len();
    let (marker, count) = read_number(&chars, 0);
    if marker >= len || !(chars[marker] == 'd' || chars[marker] == 'D') {
        return Err(invalid(text));
    }
    let (end, sides) = read_number(&chars, marker + 1);
    if end == marker + 1 {
        return Err(invalid(text));
    }
    let count: i32 = if marker == 0 {
        1
    } else {
        match count {
            Some(count) => count,
            None => {
                return Err(invalid(text));
            },
        }
    };
    let sides: i32 = match sides {
        Some(sides) => sides,
        None => {
            return Err(invalid(text));
        },
    };
    if count < 1 || sides < 1 {
        return Err(invalid(text));
    }
    if end == len {
        assert(chars@.skip(end as int).len() == 0);
        return Ok(RollSpec { count, sides, modifier: 0, has_modifier: false });
    }
    let sign = chars[end];
    assert(chars@.skip(end as int)[0] == sign);
    if !(sign == '+' || sign == '-') {
        return Err(invalid(text));
    }
    let (stop, size) = read_number(&chars, end + 1);
    proof {
        let digits = chars@.skip(end as int).skip(1);
        assert(digits =~= chars@.subrange(end + 1, len as int));
        if stop < len {
            lemma_digits_end_span(chars@, end + 1);
            assert(digits[stop - (end + 1)] == chars@[stop as int]);
        } else {
            assert(chars@.subrange(end + 1, stop as int) =~= digits);
        }
    }
    if stop != len || stop == end + 1 {
        return Err(invalid(text));
    }
    match size {
        Some(size) => {
            let modifier: i32 = if sign == '-' {
                -size
            } else {
                size
            };
            Ok(RollSpec { count, sides, modifier, has_modifier: true })
        },
        None => Err(invalid(text)),
    }
}

} // verus!
