//! Unsigned decimal numbers written in ASCII.

use vstd::prelude::*;

verus! {

/// Why a byte string is not the decimal notation of a `usize`.
#[derive(Clone, Copy, Debug, PartialEq, Eq, Structural)]
pub enum NumberError {
    /// The text is empty.
    Empty,
    /// The text holds a byte that is no digit where a digit is due, or a sign
    /// and nothing else.
    InvalidDigit,
    /// The digits denote a number above `usize::MAX`.
    PosOverflow,
}

impl NumberError {
    /// What went wrong, in words.
    pub open spec fn description(self) -> Seq<char> {
        match self {
            NumberError::Empty => "cannot parse integer from empty string"@,
            NumberError::InvalidDigit => "invalid digit found in string"@,
            NumberError::PosOverflow => "number too large to fit in target type"@,
        }
    }

    /// Says in words what went wrong.
    pub fn describe(&self) -> (text: &'static str)
        ensures
            text@ == self.description(),
    {
        match self {
            NumberError::Empty => "cannot parse integer from empty string",
            NumberError::InvalidDigit => "invalid digit found in string",
            NumberError::PosOverflow => "number too large to fit in target type",
        }
    }
}

/// `byte` is one of the ASCII digits `0` to `9`.
pub open spec fn is_digit(byte: u8) -> bool {
    '0' as u8 <= byte <= '9' as u8
}

/// The number that a string of ASCII digits denotes in base ten.
pub open spec fn decimal_value(digits: Seq<u8>) -> nat
    decreases digits.len(),
{
    if digits.len() == 0 {
        0
    } else {
        10 * decimal_value(digits.drop_last()) + (digits.last() - '0' as u8) as nat
    }
}

/// The number of digits that `text` begins with.
pub open spec fn leading_digits(text: Seq<u8>) -> nat
    decreases text.len(),
{
    if text.len() == 0 || !is_digit(text[0]) {
        0
    } else {
        1 + leading_digits(text.drop_first())
    }
}

/// `text` without the plus sign that it may begin with.
pub open spec fn unsigned_part(text: Seq<u8>) -> Seq<u8> {
    if text.len() > 0 && text[0] == '+' as u8 {
        text.drop_first()
    } else {
        text
    }
}

/// What `text` denotes as a `usize`: an optional plus sign, then one or more
/// decimal digits and nothing else, of a value that fits.
///
/// When several things are wrong, the leftmost decides: digits that already
/// exceed `usize::MAX` overflow whatever follows them, and a stray byte behind
/// digits that still fit is an invalid digit.
pub open spec fn parsed_usize(text: Seq<u8>) -> Result<usize, NumberError> {
    let body = unsigned_part(text);
    let digits = body.take(leading_digits(body) as int);
    if text.len() == 0 {
        Err(NumberError::Empty)
    } else if body.len() == 0 {
        Err(NumberError::InvalidDigit)
    } else if decimal_value(digits) > usize::MAX {
        Err(NumberError::PosOverflow)
    } else if digits.len() < body.len() {
        Err(NumberError::InvalidDigit)
    } else {
        Ok(decimal_value(digits) as usize)
    }
}

/// Every byte of `text` is a digit.
pub open spec fn all_digits(text: Seq<u8>) -> bool {
    forall|i: int| 0 <= i < text.len() ==> is_digit(#[trigger] text[i])
}

/// Digits up to a byte that is none, or up to the end, are the leading digits.
pub proof fn lemma_leading_digits(text: Seq<u8>, count: int)
    requires
        0 <= count <= text.len(),
        forall|i: int| 0 <= i < count ==> is_digit(text[i]),
        count < text.len() ==> !is_digit(text[count]),
    ensures
        leading_digits(text) == count,
    decreases count,
{
    if count > 0 {
        lemma_leading_digits(text.drop_first(), count - 1);
    }
}

/// The leading digits of a text are digits, and no more than it has bytes.
pub proof fn lemma_leading_digits_are_digits(text: Seq<u8>)
    ensures
        leading_digits(text) <= text.len(),
        forall|i: int| 0 <= i < leading_digits(text) ==> is_digit(#[trigger] text[i]),
    decreases text.len(),
{
    if text.len() > 0 && is_digit(text[0]) {
        lemma_leading_digits_are_digits(text.drop_first());
        assert forall|i: int| 0 <= i < leading_digits(text) implies is_digit(
            #[trigger] text[i],
        ) by {
            if i > 0 {
                assert(text[i] == text.drop_first()[i - 1]);
            }
        }
    }
}

/// A text denotes a `usize` exactly when, behind the plus sign that it may
/// begin with, it is a non-empty run of digits whose value fits; it then
/// denotes that value.
pub proof fn lemma_parsed_usize_ok(text: Seq<u8>)
    ensures
        parsed_usize(text) is Ok <==> {
            &&& unsigned_part(text).len() > 0
            &&& all_digits(unsigned_part(text))
            &&& decimal_value(unsigned_part(text)) <= usize::MAX
        },
        parsed_usize(text) is Ok ==> parsed_usize(text)->Ok_0 == decimal_value(
            unsigned_part(text),
        ),
{
    let body = unsigned_part(text);
    lemma_leading_digits_are_digits(body);
    if body.len() > 0 && all_digits(body) {
        lemma_leading_digits(body, body.len() as int);
    }
    if leading_digits(body) == body.len() {
        assert(body.take(body.len() as int) =~= body);
    }
}

/// A longer run of digits denotes no smaller a number.
proof fn lemma_decimal_value_grows(digits: Seq<u8>, shorter: int, longer: int)
    requires
        0 <= shorter <= longer <= digits.len(),
    ensures
        decimal_value(digits.take(shorter)) <= decimal_value(digits.take(longer)),
    decreases longer - shorter,
{
    if shorter < longer {
        assert(digits.take(longer).drop_last() =~= digits.take(longer - 1));
        lemma_decimal_value_grows(digits, shorter, longer - 1);
    }
}

/// A text that begins with `count` digits has at least as many leading digits.
proof fn lemma_leading_digits_at_least(text: Seq<u8>, count: int)
    requires
        0 <= count <= text.len(),
        forall|i: int| 0 <= i < count ==> is_digit(text[i]),
    ensures
        count <= leading_digits(text),
    decreases count,
{
    if count > 0 {
        lemma_leading_digits_at_least(text.drop_first(), count - 1);
    }
}

/// Reads `text` as a decimal `usize`.
pub fn parse_usize(text: &[u8]) -> (number: Result<usize, NumberError>)
    ensures
        number == parsed_usize(text@),
{
    if text.len() == 0 {
        return Err(NumberError::Empty);
    }
    let start: usize = if text[0] == '+' as u8 { 1 } else { 0 };
    let ghost body = unsigned_part(text@);
    if start == text.len() {
        return Err(NumberError::InvalidDigit);
    }
    let mut value: usize = 0;
    let mut i: usize = start;
    while i < text.len()
        invariant
            start <= i <= text.len(),
            body == unsigned_part(text@),
            body == text@.skip(start as int),
            forall|k: int| 0 <= k < i - start ==> is_digit(body[k]),
            value == decimal_value(body.take(i - start)),
        decreases text.len() - i,
    {
        let byte = text[i];
        if byte < '0' as u8 || byte > '9' as u8 {
            proof {
                lemma_leading_digits(body, i - start);
            }
            return Err(NumberError::InvalidDigit);
        }
        let digit: usize = (byte - '0' as u8) as usize;
        assert(decimal_value(body.take(i - start + 1)) == 10 * value + digit) by {
            assert(body.take(i - start + 1).drop_last() =~= body.take(i - start));
        }
        if value > (usize::MAX - digit) / 10 {
            proof {
                lemma_leading_digits_at_least(body, i - start + 1);
                lemma_leading_digits_are_digits(body);
                lemma_decimal_value_grows(body, i - start + 1, leading_digits(body) as int);
            }
            return Err(NumberError::PosOverflow);
        }
        value = 10 * value + digit;
        i += 1;
    }
    proof {
        lemma_leading_digits(body, body.len() as int);
    }
    Ok(value)
}

} // verus!
