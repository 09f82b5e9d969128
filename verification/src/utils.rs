//! Extraction primitives: each consumes a prefix of the text and returns the
//! rest together with what it consumed.

use vstd::prelude::*;
use vstd::std_specs::iter::IteratorSpec;
use vstd::string::StrSliceExecFns;
use crate::error::ParseError;

verus! {

/// The ASCII digits `0` to `9`.
pub open spec fn is_digit(c: char) -> bool {
    '0' <= c && c <= '9'
}

/// The ASCII whitespace characters: tab, line feed, vertical tab, form feed,
/// carriage return and space.
pub open spec fn is_whitespace(c: char) -> bool {
    c == ' ' || ('\t' <= c && c <= '\r')
}

/// The four operator symbols.
pub open spec fn is_operator(c: char) -> bool {
    c == '+' || c == '-' || c == '*' || c == '/'
}

/// A class of characters that a run can be made of.
#[derive(Debug, Clone, Copy, PartialEq, Eq, Structural)]
pub enum CharClass {
    Digit,
    Whitespace,
}

impl CharClass {
    /// Whether `c` belongs to the class.
    pub open spec fn contains(self, c: char) -> bool {
        match self {
            CharClass::Digit => is_digit(c),
            CharClass::Whitespace => is_whitespace(c),
        }
    }

    /// Tests whether `c` belongs to the class.
    pub fn has(self, c: char) -> (b: bool)
        ensures
            b == self.contains(c),
    {
        match self {
            CharClass::Digit => '0' <= c && c <= '9',
            CharClass::Whitespace => c == ' ' || ('\t' <= c && c <= '\r'),
        }
    }
}

/// The length of the longest prefix of `s` made of characters of `class`.
pub open spec fn run_len(s: Seq<char>, class: CharClass) -> nat
    decreases s.len(),
{
    if s.len() > 0 && class.contains(s[0]) {
        1 + run_len(s.drop_first(), class)
    } else {
        0
    }
}

/// `n` is where the leading run of `class` in `s` ends: everything before `n`
/// is in the class, and `n` is the end of `s` or the place of a character
/// that is not.
pub open spec fn is_run_end(s: Seq<char>, class: CharClass, n: int) -> bool {
    &&& 0 <= n <= s.len()
    &&& forall|i: int| 0 <= i < n ==> class.contains(#[trigger] s[i])
    &&& n < s.len() ==> !class.contains(s[n])
}

/// A leading run ends at exactly one place, and `run_len` is that place.
pub proof fn lemma_run_end_unique(s: Seq<char>, class: CharClass, n: int)
    ensures
        is_run_end(s, class, n) <==> n == run_len(s, class),
    decreases s.len(),
{
    if s.len() > 0 && class.contains(s[0]) {
        let t = s.drop_first();
        lemma_run_end_unique(t, class, n - 1);
        if is_run_end(s, class, n) {
            assert(n > 0);
            assert forall|i: int| 0 <= i < n - 1 implies class.contains(#[trigger] t[i]) by {
                assert(t[i] == s[i + 1]);
            }
            assert(is_run_end(t, class, n - 1));
        }
        if n == run_len(s, class) {
            assert(is_run_end(t, class, n - 1));
            assert forall|i: int| 0 <= i < n implies class.contains(#[trigger] s[i]) by {
                if i > 0 {
                    assert(s[i] == t[i - 1]);
                }
            }
            if n < s.len() {
                assert(s[n] == t[n - 1]);
            }
        }
    } else {
        if is_run_end(s, class, n) && n > 0 {
            assert(class.contains(s[0]));
        }
    }
}

/// Counts the characters of the leading run of `class` in `s`.
pub fn leading_run_len(s: &str, class: CharClass) -> (n: usize)
    ensures
        n == run_len(s@, class),
        n <= s@.len(),
{
    let total = s.unicode_len();
    let mut rest = s.chars();
    let mut n: usize = 0;
    loop
        invariant_except_break
            rest.remaining() == s@.skip(n as int),
        invariant
            total == s@.len(),
            n <= total,
            forall|i: int| 0 <= i < n ==> class.contains(#[trigger] s@[i]),
        ensures
            is_run_end(s@, class, n as int),
        decreases total - n,
    {
        match rest.next() {
            Some(c) => {
                if !class.has(c) {
                    break;
                }
                n = n + 1;
            },
            None => {
                break;
            },
        }
    }
    proof {
        lemma_run_end_unique(s@, class, n as int);
    }
    n
}

/// Whether `s` is made of characters of `class` alone.
pub open spec fn all_of(s: Seq<char>, class: CharClass) -> bool {
    forall|i: int| 0 <= i < s.len() ==> class.contains(#[trigger] s[i])
}

/// The leading run of `class` in `s`.
pub open spec fn leading_run(s: Seq<char>, class: CharClass) -> Seq<char> {
    s.take(run_len(s, class) as int)
}

/// What follows the leading run of `class` in `s`.
pub open spec fn after_run(s: Seq<char>, class: CharClass) -> Seq<char> {
    s.skip(run_len(s, class) as int)
}

/// What `extract_operator` makes of `s`: the rest and the operator symbol,
/// or the reason why there is none.
pub open spec fn split_operator(s: Seq<char>) -> Result<(Seq<char>, Seq<char>), ParseError> {
    if s.len() == 0 {
        Err(ParseError::EmptyInput)
    } else if !is_operator(s[0]) {
        Err(ParseError::UnrecognizedOperator)
    } else {
        Ok((s.skip(1), s.take(1)))
    }
}

/// A text made of characters of `class` alone is its own leading run, and
/// nothing follows it.
pub proof fn lemma_run_of_whole(s: Seq<char>, class: CharClass)
    requires
        all_of(s, class),
    ensures
        leading_run(s, class) == s,
        after_run(s, class) == Seq::<char>::empty(),
{
    lemma_run_end_unique(s, class, s.len() as int);
    assert(s.take(s.len() as int) =~= s);
    assert(s.skip(s.len() as int) =~= Seq::<char>::empty());
}

/// Where `run` is made of characters of `class` and `rest` is empty or
/// starts with a character that is not of `class`, the leading run of
/// `run + rest` is `run`, and `rest` is what follows it.
pub proof fn lemma_run_then_rest(run: Seq<char>, rest: Seq<char>, class: CharClass)
    requires
        all_of(run, class),
        rest.len() > 0 ==> !class.contains(rest[0]),
    ensures
        leading_run(run + rest, class) == run,
        after_run(run + rest, class) == rest,
{
    let s = run + rest;
    assert forall|i: int| 0 <= i < run.len() implies class.contains(#[trigger] s[i]) by {
        assert(s[i] == run[i]);
    }
    if rest.len() > 0 {
        assert(s[run.len() as int] == rest[0]);
    }
    lemma_run_end_unique(s, class, run.len() as int);
    assert(s.take(run.len() as int) =~= run);
    assert(s.skip(run.len() as int) =~= rest);
}

/// A leading run and what follows it make up the whole text, so what
/// follows is a suffix of the text.
pub proof fn lemma_run_splits(s: Seq<char>, class: CharClass)
    ensures
        leading_run(s, class) + after_run(s, class) == s,
        after_run(s, class).is_suffix_of(s),
        all_of(leading_run(s, class), class),
        after_run(s, class).len() > 0 ==> !class.contains(after_run(s, class)[0]),
{
    lemma_run_end_unique(s, class, run_len(s, class) as int);
    assert(leading_run(s, class) + after_run(s, class) =~= s);
}

/// Where an operator symbol is split off, it is the first character of the
/// text, and the rest is the text without that character.
pub proof fn lemma_operator_splits(s: Seq<char>)
    ensures
        match split_operator(s) {
            Ok((rest, symbol)) => {
                &&& symbol.len() == 1
                &&& is_operator(symbol[0])
                &&& symbol + rest == s
                &&& rest.is_suffix_of(s)
                &&& rest.len() < s.len()
            },
            Err(e) => e == ParseError::EmptyInput <==> s.len() == 0,
        },
{
    if s.len() > 0 {
        assert(s.take(1) + s.skip(1) =~= s);
    }
}

/// An operator symbol followed by any text splits into that text and the
/// symbol.
pub proof fn lemma_operator_then_rest(c: char, rest: Seq<char>)
    requires
        is_operator(c),
    ensures
        split_operator(seq![c] + rest) == Ok::<_, ParseError>((rest, seq![c])),
{
    let s = seq![c] + rest;
    assert(s[0] == c);
    assert(s.skip(1) =~= rest);
    assert(s.take(1) =~= seq![c]);
}

/// Splits `s` after its first `n` characters. The part after the split comes
/// first in the result.
fn split_after(s: &str, n: usize) -> (res: (&str, &str))
    requires
        n <= s@.len(),
    ensures
        res.0@ == s@.skip(n as int),
        res.1@ == s@.take(n as int),
{
    let total = s.unicode_len();
    (s.substring_char(n, total), s.substring_char(0, n))
}

/// Consumes the leading ASCII digits of `s`, which may be none, and returns
/// the rest and the digits.
pub fn extract_digits(s: &str) -> (res: (&str, &str))
    ensures
        res.0@ == after_run(s@, CharClass::Digit),
        res.1@ == leading_run(s@, CharClass::Digit),
{
    let n = leading_run_len(s, CharClass::Digit);
    split_after(s, n)
}

/// Consumes the leading whitespace of `s`, which may be none, and returns
/// the rest and the whitespace.
pub fn extract_whitespace(s: &str) -> (res: (&str, &str))
    ensures
        res.0@ == after_run(s@, CharClass::Whitespace),
        res.1@ == leading_run(s@, CharClass::Whitespace),
{
    let n = leading_run_len(s, CharClass::Whitespace);
    split_after(s, n)
}

/// Consumes the first character of `s` if it is an operator symbol, and
/// returns the rest and the symbol.
///
/// Fails with `EmptyInput` where `s` is empty, and with
/// `UnrecognizedOperator` where its first character is no operator symbol.
/// The first character is read as a whole, whatever its width in bytes: a
/// text that starts with a character outside ASCII has no operator.
pub fn extract_operator(s: &str) -> (res: Result<(&str, &str), ParseError>)
    ensures
        match res {
            Ok((rest, symbol)) => split_operator(s@) == Ok::<_, ParseError>((rest@, symbol@)),
            Err(e) => split_operator(s@) == Err::<(Seq<char>, Seq<char>), _>(e),
        },
{
    if s.is_empty() {
        return Err(ParseError::EmptyInput);
    }
    let c = s.get_char(0);
    if c == '+' || c == '-' || c == '*' || c == '/' {
        Ok(split_after(s, 1))
    } else {
        Err(ParseError::UnrecognizedOperator)
    }
}

} // verus!
