//! Unsigned decimal numbers that fit in an `i32`.

use vstd::prelude::*;
use vstd::std_specs::iter::IteratorSpec;
use vstd::string::StrSliceExecFns;
use crate::error::ParseError;
use crate::utils::{
    after_run, all_of, extract_digits, is_digit, leading_run, lemma_run_splits,
    lemma_run_then_rest, CharClass,
};

verus! {

/// The value of the digit `c`.
pub open spec fn digit_value(c: char) -> nat
    recommends
        is_digit(c),
{
    (c as nat - '0' as nat) as nat
}

/// The value of `s` read as a decimal numeral; the empty numeral is 0.
pub open spec fn digits_value(s: Seq<char>) -> nat
    decreases s.len(),
{
    if s.len() == 0 {
        0
    } else {
        digits_value(s.drop_last()) * 10 + digit_value(s.last())
    }
}

/// The number that `s` denotes: `s` must be a nonempty run of digits whose
/// value is at most `i32::MAX`.
pub open spec fn decimal_value(s: Seq<char>) -> Option<i32> {
    if s.len() > 0 && all_of(s, CharClass::Digit) && digits_value(s) <= i32::MAX {
        Some(digits_value(s) as i32)
    } else {
        None
    }
}

/// A numeral is worth at least as much as any of its prefixes.
pub proof fn lemma_prefix_value_le(s: Seq<char>, k: int)
    requires
        0 <= k <= s.len(),
    ensures
        digits_value(s.take(k)) <= digits_value(s),
    decreases s.len(),
{
    if k == s.len() {
        assert(s.take(k) =~= s);
    } else {
        lemma_prefix_value_le(s.drop_last(), k);
        assert(s.drop_last().take(k) =~= s.take(k));
    }
}

/// Reads `digits` as a decimal numeral. There is no value where `digits` is
/// empty, holds anything but digits, or denotes more than `i32::MAX`.
pub fn digits_to_i32(digits: &str) -> (res: Option<i32>)
    ensures
        res == decimal_value(digits@),
{
    let total = digits.unicode_len();
    let mut rest = digits.chars();
    let mut n: usize = 0;
    let mut value: i64 = 0;
    loop
        invariant_except_break
            rest.remaining() == digits@.skip(n as int),
        invariant
            total == digits@.len(),
            n <= total,
            all_of(digits@.take(n as int), CharClass::Digit),
            value == digits_value(digits@.take(n as int)),
            value <= i32::MAX,
        ensures
            n == total,
        decreases total - n,
    {
        let c = match rest.next() {
            Some(c) => c,
            None => {
                break;
            },
        };
        if !CharClass::Digit.has(c) {
            assert(!is_digit(digits@[n as int]));
            return None;
        }
        let digit: i64 = (c as u32 - '0' as u32) as i64;
        let longer_value: i64 = value * 10 + digit;
        proof {
            let longer = digits@.take(n + 1);
            assert(longer.drop_last() =~= digits@.take(n as int));
            assert(longer.last() == c);
            assert forall|i: int| 0 <= i < longer.len() implies is_digit(#[trigger] longer[i]) by {
                if i < n {
                    assert(longer[i] == digits@.take(n as int)[i]);
                }
            }
            lemma_prefix_value_le(digits@, n + 1);
        }
        if longer_value > i32::MAX as i64 {
            return None;
        }
        value = longer_value;
        n = n + 1;
    }
    assert(digits@.take(n as int) =~= digits@);
    if n == 0 {
        return None;
    }
    Some(value as i32)
}

/// A number, as written in an expression.
#[derive(Debug, Clone, Copy, PartialEq, Eq, Structural)]
pub struct Number(pub i32);

/// What `Number::new` makes of `s`: the text after the leading digits and
/// their value, or `InvalidDigits` where the leading digits, which may be
/// none, denote no number.
pub open spec fn parse_number(s: Seq<char>) -> Result<(Seq<char>, Number), ParseError> {
    match decimal_value(leading_run(s, CharClass::Digit)) {
        Some(value) => Ok((after_run(s, CharClass::Digit), Number(value))),
        None => Err(ParseError::InvalidDigits),
    }
}

/// A numeral followed by text that does not go on with a digit parses as
/// its value and leaves that text.
pub proof fn lemma_numeral_parses(digits: Seq<char>, rest: Seq<char>)
    requires
        decimal_value(digits) is Some,
        rest.len() > 0 ==> !is_digit(rest[0]),
    ensures
        parse_number(digits + rest) == Ok::<_, ParseError>(
            (rest, Number(decimal_value(digits)->0)),
        ),
{
    lemma_run_then_rest(digits, rest, CharClass::Digit);
}

/// Where a number is parsed, at least one character was consumed: the rest
/// is a suffix of the text and shorter than it.
pub proof fn lemma_number_consumes(s: Seq<char>)
    ensures
        match parse_number(s) {
            Ok((rest, number)) => rest.is_suffix_of(s) && rest.len() < s.len() && number.0 >= 0,
            Err(e) => e == ParseError::InvalidDigits,
        },
{
    lemma_run_splits(s, CharClass::Digit);
}

/// A number is refused exactly where the text is empty, starts with a
/// character that is no digit, or starts with digits that denote more than
/// `i32::MAX`. What follows the digits never matters.
pub proof fn lemma_number_refused(s: Seq<char>)
    ensures
        parse_number(s) is Err <==> {
            ||| s.len() == 0
            ||| !is_digit(s[0])
            ||| digits_value(leading_run(s, CharClass::Digit)) > i32::MAX
        },
{
    lemma_run_splits(s, CharClass::Digit);
    if s.len() > 0 && is_digit(s[0]) {
        assert(leading_run(s, CharClass::Digit).len() > 0);
    }
}

impl Number {
    /// Parses the leading digits of `s` and returns the rest of `s` with
    /// their value.
    ///
    /// Fails with `InvalidDigits` where `s` does not start with a digit,
    /// which is so where `s` is empty, or the digits denote more than
    /// `i32::MAX`.
    pub fn new(s: &str) -> (res: Result<(&str, Number), ParseError>)
        ensures
            match res {
                Ok((rest, number)) => parse_number(s@) == Ok::<_, ParseError>((rest@, number)),
                Err(e) => parse_number(s@) == Err::<(Seq<char>, Number), _>(e),
            },
    {
        let (rest, digits) = extract_digits(s);
        match digits_to_i32(digits) {
            Some(value) => Ok((rest, Number(value))),
            None => Err(ParseError::InvalidDigits),
        }
    }
}

} // verus!
