//! Decimal numerals: what a piece of text reads as, and how a number is
//! written.

use vstd::prelude::*;

verus! {

/// Whether `c` is one of the ten decimal digits.
pub open spec fn is_digit(c: char) -> bool {
    '0' <= c && c <= '9'
}

/// The number that a decimal digit stands for.
pub open spec fn digit_value(c: char) -> nat
    recommends
        is_digit(c),
{
    (c as nat - '0' as nat) as nat
}

/// The decimal digit that stands for `d`.
pub open spec fn digit_char(d: nat) -> char
    recommends
        d < 10,
{
    if d == 0 {
        '0'
    } else if d == 1 {
        '1'
    } else if d == 2 {
        '2'
    } else if d == 3 {
        '3'
    } else if d == 4 {
        '4'
    } else if d == 5 {
        '5'
    } else if d == 6 {
        '6'
    } else if d == 7 {
        '7'
    } else if d == 8 {
        '8'
    } else {
        '9'
    }
}

/// Whether every character of `digits` is a decimal digit.
pub open spec fn all_digits(digits: Seq<char>) -> bool {
    forall|i: int| 0 <= i < digits.len() ==> is_digit(#[trigger] digits[i])
}

/// The number that a run of decimal digits stands for, the first digit the
/// most significant.
pub open spec fn digits_value(digits: Seq<char>) -> nat
    decreases digits.len(),
{
    if digits.len() == 0 {
        0
    } else {
        digits_value(digits.drop_last()) * 10 + digit_value(digits.last())
    }
}

/// The digits of a numeral: the text without a leading `+`.
pub open spec fn numeral_digits(text: Seq<char>) -> Seq<char> {
    if text.len() > 0 && text[0] == '+' {
        text.subrange(1, text.len() as int)
    } else {
        text
    }
}

/// Whether `text` is a numeral: an optional `+`, then one or more decimal
/// digits and nothing else.
pub open spec fn is_numeral(text: Seq<char>) -> bool {
    numeral_digits(text).len() > 0 && all_digits(numeral_digits(text))
}

/// The number that a numeral stands for.
pub open spec fn numeral_value(text: Seq<char>) -> nat {
    digits_value(numeral_digits(text))
}

/// What `text` reads as where numbers up to `max` can be held: the value of
/// the numeral, or nothing where `text` is no numeral or its value is above
/// `max`.
pub open spec fn reads_as(text: Seq<char>, max: nat) -> Option<nat> {
    if is_numeral(text) && numeral_value(text) <= max {
        Some(numeral_value(text))
    } else {
        None
    }
}

/// How `n` is written: in decimal digits, without a sign or leading zeros.
pub open spec fn decimal(n: nat) -> Seq<char>
    decreases n,
{
    if n < 10 {
        seq![digit_char(n)]
    } else {
        decimal(n / 10).push(digit_char(n % 10))
    }
}

/// The words in which the error of `str::parse::<u64>` says, through its
/// `Display`, why `text` is no `u64`.
pub uninterp spec fn u64_complaint(text: Seq<char>) -> Seq<char>;

/// The words in which the error of `str::parse::<usize>` says, through its
/// `Display`, why `text` is no `usize`.
pub uninterp spec fn usize_complaint(text: Seq<char>) -> Seq<char>;

/// Reads a `u64` with `str::parse`. A value comes back exactly where the text
/// is a numeral whose value a `u64` holds, and it is that value; all other
/// text gives an error, which is handed on in the words of the standard
/// library. The words depend on the text alone.
#[verifier::external_body]
pub(crate) fn parse_u64(text: &str) -> (r: Result<u64, String>)
    ensures
        r matches Ok(n) ==> reads_as(text@, u64::MAX as nat) == Some(n as nat),
        r is Err ==> reads_as(text@, u64::MAX as nat) is None,
        r matches Err(complaint) ==> complaint@ == u64_complaint(text@),
{
    match text.parse::<u64>() {
        Ok(n) => Ok(n),
        Err(err) => Err(err.to_string()),
    }
}

/// Reads a `usize` with `str::parse`. A value comes back exactly where the
/// text is a numeral whose value a `usize` holds, and it is that value; all
/// other text gives an error, which is handed on in the words of the standard
/// library. The words depend on the text alone.
#[verifier::external_body]
pub(crate) fn parse_usize(text: &str) -> (r: Result<usize, String>)
    ensures
        r matches Ok(n) ==> reads_as(text@, usize::MAX as nat) == Some(n as nat),
        r is Err ==> reads_as(text@, usize::MAX as nat) is None,
        r matches Err(complaint) ==> complaint@ == usize_complaint(text@),
{
    match text.parse::<usize>() {
        Ok(n) => Ok(n),
        Err(err) => Err(err.to_string()),
    }
}

/// The text of one decimal digit.
fn digit_text(d: u64) -> (r: &'static str)
    requires
        d < 10,
    ensures
        r@ == seq![digit_char(d as nat)],
{
    proof {
        reveal_strlit("0");
        reveal_strlit("1");
        reveal_strlit("2");
        reveal_strlit("3");
        reveal_strlit("4");
        reveal_strlit("5");
        reveal_strlit("6");
        reveal_strlit("7");
        reveal_strlit("8");
        reveal_strlit("9");
    }
    let r = if d == 0 {
        "0"
    } else if d == 1 {
        "1"
    } else if d == 2 {
        "2"
    } else if d == 3 {
        "3"
    } else if d == 4 {
        "4"
    } else if d == 5 {
        "5"
    } else if d == 6 {
        "6"
    } else if d == 7 {
        "7"
    } else if d == 8 {
        "8"
    } else {
        "9"
    };
    assert(r@ =~= seq![digit_char(d as nat)]);
    r
}

/// Writes `n` in decimal at the end of `out`.
pub fn push_decimal(out: &mut String, n: u64)
    ensures
        final(out)@ == old(out)@ + decimal(n as nat),
    decreases n,
{
    if n >= 10 {
        push_decimal(out, n / 10);
    }
    out.append(digit_text(n % 10));
    assert(final(out)@ =~= old(out)@ + decimal(n as nat));
}

/// What is written for a number reads back as that number.
pub proof fn lemma_decimal_reads_back(n: nat)
    ensures
        is_numeral(decimal(n)),
        numeral_value(decimal(n)) == n,
        decimal(n).len() > 0,
        decimal(n)[0] != '+',
    decreases n,
{
    if n < 10 {
        assert(decimal(n).drop_last() =~= Seq::<char>::empty());
        assert(digits_value(Seq::<char>::empty()) == 0);
        assert(digit_value(digit_char(n)) == n);
        assert(digits_value(decimal(n)) == n);
    } else {
        lemma_decimal_reads_back(n / 10);
        assert(decimal(n).drop_last() =~= decimal(n / 10));
        assert(decimal(n).last() == digit_char(n % 10));
        assert(digit_value(digit_char(n % 10)) == n % 10);
        assert(digits_value(decimal(n / 10)) == n / 10);
        assert(digits_value(decimal(n)) == n);
    }
}

} // verus!
