//! Amounts as the ledger counts them and as people write them, and the
//! reading of a transfer's outcome.

use crate::error::ValidationError;
use vstd::prelude::*;
use vstd::string::*;

verus! {

/// An amount of money in yoctoNEAR, the smallest unit there is.
pub type Amount = u128;

/// An amount in NEAR as a person writes it. Commas, underscores, spaces and
/// the sign Ⓝ may stand anywhere in it and mean nothing.
pub type FormattedNearString = String;

/// The decimal places that a displayed amount keeps.
pub const DEFAULT_DECIMAL_PLACES: u32 = 4;

/// One NEAR in yoctoNEAR.
pub const YOCTO_FACTOR: u128 = 1_000_000_000_000_000_000_000_000;

/// The smallest amount that a displayed amount tells apart: a ten-thousandth
/// of a NEAR, in yoctoNEAR.
pub const DISPLAY_UNIT: u128 = 100_000_000_000_000_000_000;

/// The character that writes the digit `d`.
pub open spec fn digit_char(d: nat) -> char {
    (48 + d) as char
}

/// The decimal numeral of `n`, without leading zeros.
pub open spec fn decimal_digits(n: nat) -> Seq<char>
    decreases n,
{
    if n < 10 {
        seq![digit_char(n)]
    } else {
        decimal_digits(n / 10).push(digit_char(n % 10))
    }
}

/// The digits behind the point for `frac` ten-thousandths, with the zeros at
/// the end left out.
pub open spec fn fraction_digits(frac: nat) -> Seq<char> {
    let d1 = digit_char(frac / 1000 % 10);
    let d2 = digit_char(frac / 100 % 10);
    let d3 = digit_char(frac / 10 % 10);
    let d4 = digit_char(frac % 10);
    if frac % 1000 == 0 {
        seq![d1]
    } else if frac % 100 == 0 {
        seq![d1, d2]
    } else if frac % 10 == 0 {
        seq![d1, d2, d3]
    } else {
        seq![d1, d2, d3, d4]
    }
}

/// How an amount is displayed: in NEAR, cut off after four decimal places,
/// the point and the places left out where they would all be zero, followed
/// by a space and the sign Ⓝ.
pub open spec fn near_text(yocto: nat) -> Seq<char> {
    let units = yocto / (DISPLAY_UNIT as nat);
    let whole = units / 10_000;
    let frac = units % 10_000;
    let number = if frac == 0 {
        decimal_digits(whole)
    } else {
        decimal_digits(whole) + "."@ + fraction_digits(frac)
    };
    number + " \u{24C3}"@
}

/// Appends the character of the digit `d`.
fn push_digit(text: &mut String, d: u8)
    requires
        d < 10,
    ensures
        final(text)@ == old(text)@.push(digit_char(d as nat)),
{
    let digit = match d {
        0 => "0",
        1 => "1",
        2 => "2",
        3 => "3",
        4 => "4",
        5 => "5",
        6 => "6",
        7 => "7",
        8 => "8",
        _ => "9",
    };
    proof {
        reveal_strlit("0");
        reveal_strlit("1");
        reveal_strlit("2");
        reveal_strlit("3");
        reveal_strlit("4");
        reveal_strlit("5");
        reveal_strlit("6");
        reveal_strlit("7");
        reveal_strlit("8");
        reveal_strlit("9");
    }
    text.append(digit);
}

/// Appends the decimal numeral of `n`.
fn push_decimal(text: &mut String, n: u128)
    ensures
        final(text)@ == old(text)@ + decimal_digits(n as nat),
    decreases n,
{
    if n >= 10 {
        push_decimal(text, n / 10);
    }
    push_digit(text, (n % 10) as u8);
}

/// The text that displays an amount of yoctoNEAR in NEAR.
pub fn yocto_to_near_string(yocto: u128) -> (text: String)
    ensures
        text@ == near_text(yocto as nat),
{
    let units = yocto / DISPLAY_UNIT;
    let whole = units / 10_000;
    let frac = units % 10_000;
    let mut text = String::new();
    push_decimal(&mut text, whole);
    if frac != 0 {
        text.append(".");
        push_digit(&mut text, (frac / 1000 % 10) as u8);
        if frac % 1000 != 0 {
            push_digit(&mut text, (frac / 100 % 10) as u8);
            if frac % 100 != 0 {
                push_digit(&mut text, (frac / 10 % 10) as u8);
                if frac % 10 != 0 {
                    push_digit(&mut text, (frac % 10) as u8);
                }
            }
        }
    }
    text.append(" \u{24C3}");
    text
}

/// A character that may stand anywhere in a written amount and means
/// nothing: a comma, an underscore, a space or the sign Ⓝ.
pub open spec fn is_filler(c: char) -> bool {
    c == ',' || c == '_' || c == ' ' || c == '\u{24C3}'
}

/// The test that keeps the characters of a written amount that are no fillers.
pub open spec fn not_filler() -> spec_fn(char) -> bool {
    |c: char| !is_filler(c)
}

/// A written amount without its fillers.
pub open spec fn written(text: Seq<char>) -> Seq<char> {
    text.filter(not_filler())
}

/// One of the ten digits.
pub open spec fn is_digit(c: char) -> bool {
    48 <= c as int <= 57
}

/// The number that a digit stands for.
pub open spec fn digit_of(c: char) -> nat {
    (c as int - 48) as nat
}

/// Every character is a digit.
pub open spec fn all_digits(s: Seq<char>) -> bool {
    forall|i: int| 0 <= i < s.len() ==> is_digit(#[trigger] s[i])
}

/// The number that a row of digits writes; the empty row writes zero.
pub open spec fn digits_value(s: Seq<char>) -> nat
    decreases s.len(),
{
    if s.len() == 0 {
        0
    } else {
        digits_value(s.drop_last()) * 10 + digit_of(s.last())
    }
}

/// `t` is a decimal number: digits, among them at most one point, and at
/// least one digit. The point stands at `p`; without a point, `p` is the
/// length of `t`.
pub open spec fn number_with_point_at(t: Seq<char>, p: int) -> bool {
    &&& 0 <= p <= t.len()
    &&& all_digits(t.take(p))
    &&& p < t.len() ==> t[p] == '.' && all_digits(t.skip(p + 1))
    &&& p > 0 || p + 1 < t.len()
}

/// `t` is a decimal number.
pub open spec fn is_number(t: Seq<char>) -> bool {
    exists|p: int| number_with_point_at(t, p)
}

/// The first four decimal places of the number `t` whose point stands at
/// `p`, with zeros for the places that are not written.
pub open spec fn decimal_places(t: Seq<char>, p: int) -> Seq<char> {
    let behind = if p < t.len() {
        t.skip(p + 1)
    } else {
        Seq::<char>::empty()
    };
    (behind + seq!['0', '0', '0', '0']).take(4)
}

/// The decimal number `t` in ten-thousandths, cut off after the fourth
/// decimal place.
pub open spec fn ten_thousandths(t: Seq<char>) -> nat {
    let p = choose|p: int| number_with_point_at(t, p);
    digits_value(t.take(p)) * 10_000 + digits_value(decimal_places(t, p))
}

/// The amount in yoctoNEAR that a text in NEAR writes, if the text without
/// its fillers is a decimal number.
pub open spec fn near_amount(text: Seq<char>) -> nat {
    ten_thousandths(written(text)) * (DISPLAY_UNIT as nat)
}

/// What reading a written amount comes to: the amount, or why there is none.
pub open spec fn read_near(text: Seq<char>) -> Result<u128, ValidationError> {
    if !is_number(written(text)) {
        Err(ValidationError::MalformedAmount)
    } else if near_amount(text) > u128::MAX {
        Err(ValidationError::AmountTooLarge)
    } else {
        Ok(near_amount(text) as u128)
    }
}

/// The point of a number stands at the first character that is no digit.
pub proof fn lemma_point_is_first_non_digit(t: Seq<char>, p: int, q: int)
    requires
        0 <= p <= t.len(),
        all_digits(t.take(p)),
        p < t.len() ==> !is_digit(t[p]),
        number_with_point_at(t, q),
    ensures
        q == p,
{
    if q < p {
        assert(is_digit(t.take(p)[q]));
    } else if p < q {
        assert(is_digit(t.take(q)[p]));
    }
}

/// A longer row of digits writes no smaller number than its beginning.
pub proof fn lemma_digits_value_grows(s: Seq<char>, i: int, j: int)
    requires
        0 <= i <= j <= s.len(),
    ensures
        digits_value(s.take(i)) <= digits_value(s.take(j)),
    decreases j - i,
{
    if i < j {
        lemma_digits_value_grows(s, i, j - 1);
        assert(s.take(j).drop_last() =~= s.take(j - 1));
    }
}

/// The characters of `text` that are no fillers.
fn written_chars(text: &str) -> (chars: Vec<char>)
    ensures
        chars@ == written(text@),
{
    let mut chars: Vec<char> = Vec::new();
    proof {
        reveal(Seq::filter);
    }
    for c in it: text.chars()
        invariant
            it.seq() == text@,
            chars@ == written(text@.take(it.index() as int)),
    {
        proof {
            reveal(Seq::filter);
            let shorter = text@.take(it.index() as int);
            let longer = text@.take(it.index() + 1);
            assert(longer.drop_last() =~= shorter);
        }
        if !(c == ',' || c == '_' || c == ' ' || c == '\u{24C3}') {
            chars.push(c);
        }
    }
    assert(text@.take(text@.len() as int) =~= text@);
    chars
}

/// Whether `c` is a digit.
fn char_is_digit(c: char) -> (r: bool)
    ensures
        r == is_digit(c),
{
    '0' <= c && c <= '9'
}

/// The number that the digit `c` stands for.
fn char_digit(c: char) -> (d: u128)
    requires
        is_digit(c),
    ensures
        d == digit_of(c),
        d < 10,
{
    (c as u32 - 48) as u128
}

/// The position behind the digits that start at `from`.
fn skip_digits(t: &Vec<char>, from: usize) -> (to: usize)
    requires
        from <= t.len(),
    ensures
        from <= to <= t.len(),
        all_digits(t@.subrange(from as int, to as int)),
        to < t.len() ==> !is_digit(t@[to as int]),
{
    let mut to = from;
    while to < t.len() && char_is_digit(t[to])
        invariant
            from <= to <= t.len(),
            all_digits(t@.subrange(from as int, to as int)),
        decreases t.len() - to,
    {
        to = to + 1;
    }
    to
}

/// The largest whole number of NEAR that the ledger can count.
const WHOLE_MAX: u128 = 340_282_366_920_938;

/// The largest number of ten-thousandths of a NEAR that the ledger can count.
const UNITS_MAX: u128 = 3_402_823_669_209_384_634;

/// The amount in yoctoNEAR that a text in NEAR writes. The text is a
/// decimal number once its fillers are taken out; what it writes beyond the
/// fourth decimal place is dropped.
pub fn near_string_to_yocto(near_string: FormattedNearString) -> (amount: Result<
    u128,
    ValidationError,
>)
    ensures
        amount == read_near(near_string@),
{
    let t = written_chars(near_string.as_str());
    let n = t.len();
    let p = skip_digits(&t, 0);
    let mut end = p;
    if p < n {
        if t[p] == '.' {
            end = skip_digits(&t, p + 1);
        }
    }
    if end < n || (p == 0 && n <= 1) {
        proof {
            if is_number(t@) {
                let q = choose|q: int| number_with_point_at(t@, q);
                lemma_point_is_first_non_digit(t@, p as int, q);
                if end < n && t@[p as int] == '.' {
                    assert(t@.skip(p + 1)[end - p - 1] == t@[end as int]);
                }
            }
        }
        return Err(ValidationError::MalformedAmount);
    }
    proof {
        assert(number_with_point_at(t@, p as int));
        let q = choose|q: int| number_with_point_at(t@, q);
        lemma_point_is_first_non_digit(t@, p as int, q);
    }
    let ghost whole_digits = t@.take(p as int);
    let mut whole: u128 = 0;
    let mut i: usize = 0;
    while i < p
        invariant
            i <= p <= t.len(),
            whole_digits == t@.take(p as int),
            all_digits(whole_digits),
            t@ == written(near_string@),
            is_number(t@),
            ten_thousandths(t@) == digits_value(whole_digits) * 10_000 + digits_value(
                decimal_places(t@, p as int),
            ),
            whole == digits_value(whole_digits.take(i as int)),
            whole <= WHOLE_MAX,
        decreases p - i,
    {
        assert(is_digit(whole_digits[i as int]));
        let d = char_digit(t[i]);
        whole = whole * 10 + d;
        i = i + 1;
        proof {
            assert(whole_digits.take(i as int).drop_last() =~= whole_digits.take(i - 1));
        }
        if whole > WHOLE_MAX {
            proof {
                lemma_digits_value_grows(whole_digits, i as int, p as int);
                assert(whole_digits.take(p as int) =~= whole_digits);
                assert(near_amount(near_string@) >= (WHOLE_MAX + 1) * 10_000 * DISPLAY_UNIT)
                    by (nonlinear_arith)
                    requires
                        near_amount(near_string@) == (digits_value(whole_digits) * 10_000
                            + digits_value(decimal_places(t@, p as int))) * DISPLAY_UNIT,
                        digits_value(decimal_places(t@, p as int)) >= 0,
                        digits_value(whole_digits) >= WHOLE_MAX + 1,
                ;
            }
            return Err(ValidationError::AmountTooLarge);
        }
    }
    assert(whole_digits.take(p as int) =~= whole_digits);
    let ghost places = decimal_places(t@, p as int);
    let mut part: u128 = 0;
    let mut j: usize = 0;
    while j < 4
        invariant
            j <= 4,
            p <= n == t.len(),
            places == decimal_places(t@, p as int),
            p < n ==> all_digits(t@.skip(p + 1)),
            part == digits_value(places.take(j as int)),
            j == 0 ==> part == 0,
            j == 1 ==> part < 10,
            j == 2 ==> part < 100,
            j == 3 ==> part < 1_000,
            part < 10_000,
        decreases 4 - j,
    {
        let d = if p < n && j < n - p - 1 {
            assert(is_digit(t@.skip(p + 1)[j as int]));
            char_digit(t[p + 1 + j])
        } else {
            0
        };
        assert(places.take(j + 1).drop_last() =~= places.take(j as int));
        part = part * 10 + d;
        j = j + 1;
    }
    assert(places.take(4) =~= places);
    let units = whole * 10_000 + part;
    if units > UNITS_MAX {
        proof {
            assert(units * DISPLAY_UNIT > u128::MAX) by (nonlinear_arith)
                requires
                    units >= UNITS_MAX + 1,
            ;
        }
        return Err(ValidationError::AmountTooLarge);
    }
    assert(units * DISPLAY_UNIT <= u128::MAX) by (nonlinear_arith)
        requires
            units <= UNITS_MAX,
    ;
    Ok(units * DISPLAY_UNIT)
}

/// How the host reports a transfer that it was asked to make.
#[derive(Clone, Copy, Debug, PartialEq, Eq, Structural)]
pub enum PromiseOutcome {
    /// The transfer has not been settled yet.
    NotReady,
    /// The funds have left escrow.
    Successful,
    /// No funds have left escrow.
    Failed,
}

/// Whether the transfer that a continuation answers to was made: the host
/// reports exactly one outcome, and it is a success.
pub fn did_promise_succeed(results: &Vec<PromiseOutcome>) -> (succeeded: bool)
    ensures
        succeeded == (results@.len() == 1 && results@[0] is Successful),
{
    if results.len() != 1 {
        return false;
    }
    match results[0] {
        PromiseOutcome::Successful => true,
        _ => false,
    }
}

} // verus!
