//! Prices written as text, in the shortest form that reads back as the same number.

use vstd::prelude::*;
use crate::fixed::{Fixed, FRACTION_DIGITS, SCALE};
use crate::price_text::{
    all_digits, counted_digits, digits_value, fraction_digits, is_digit, lemma_mantissa_read,
    parsed_price, trimmed, unsigned_value, whole_digits, DIGIT_ZERO, MINUS, POINT,
};

verus! {

/// Ten to the power of `n`.
pub open spec fn pow10(n: nat) -> nat
    decreases n,
{
    if n == 0 {
        1
    } else {
        10 * pow10((n - 1) as nat)
    }
}

/// `n` zero digits.
pub open spec fn zeros(n: nat) -> Seq<u8> {
    Seq::new(n, |i: int| DIGIT_ZERO)
}

/// The byte that writes the digit `d`.
pub open spec fn digit_byte(d: nat) -> u8 {
    (DIGIT_ZERO + d) as u8
}

/// The digits that write `n`, without leading zeros; a single zero for zero.
pub open spec fn digits_of(n: nat) -> Seq<u8>
    decreases n,
{
    if n < 10 {
        seq![digit_byte(n)]
    } else {
        digits_of(n / 10).push(digit_byte(n % 10))
    }
}

/// The last `width` digits of `n`, with leading zeros where `n` has fewer.
pub open spec fn padded_digits(n: nat, width: nat) -> Seq<u8>
    decreases width,
{
    if width == 0 {
        Seq::<u8>::empty()
    } else {
        padded_digits(n / 10, (width - 1) as nat).push(digit_byte(n % 10))
    }
}

/// `s` without the zeros at its end.
pub open spec fn without_trailing_zeros(s: Seq<u8>) -> Seq<u8>
    decreases s.len(),
{
    if s.len() > 0 && s.last() == DIGIT_ZERO {
        without_trailing_zeros(s.drop_last())
    } else {
        s
    }
}

/// The text of the number with raw value `raw`: a minus sign where it is negative, and
/// the text of its magnitude.
pub open spec fn price_text(raw: int) -> Seq<u8> {
    if raw < 0 {
        seq![MINUS] + unsigned_text((-raw) as nat)
    } else {
        unsigned_text(raw as nat)
    }
}

/// The digits of a number are digits, at least one, and write that number.
pub proof fn lemma_digits_of(n: nat)
    ensures
        digits_of(n).len() >= 1,
        all_digits(digits_of(n)),
        digits_value(digits_of(n)) == n,
    decreases n,
{
    if n < 10 {
        assert(digits_of(n).drop_last() =~= Seq::<u8>::empty());
        assert(digits_value(digits_of(n).drop_last()) == 0);
    } else {
        lemma_digits_of(n / 10);
        assert(digits_of(n).drop_last() =~= digits_of(n / 10));
    }
}

/// The last `width` digits of a number are `width` digits, and write the number where it
/// has no more digits than that.
pub proof fn lemma_padded_digits(n: nat, width: nat)
    ensures
        padded_digits(n, width).len() == width,
        all_digits(padded_digits(n, width)),
        n < pow10(width) ==> digits_value(padded_digits(n, width)) == n,
    decreases width,
{
    if width > 0 {
        lemma_padded_digits(n / 10, (width - 1) as nat);
        assert(padded_digits(n, width).drop_last() =~= padded_digits(n / 10, (width - 1) as nat));
    }
}

/// Dropping the zeros at the end of some digits leaves digits that do not end in zero, and
/// putting as many zeros back gives the digits again.
pub proof fn lemma_without_trailing_zeros(s: Seq<u8>)
    requires
        all_digits(s),
    ensures
        all_digits(without_trailing_zeros(s)),
        without_trailing_zeros(s).len() <= s.len(),
        without_trailing_zeros(s).len() > 0 ==> without_trailing_zeros(s).last() != DIGIT_ZERO,
        without_trailing_zeros(s) + zeros((s.len() - without_trailing_zeros(s).len()) as nat)
            == s,
    decreases s.len(),
{
    if s.len() > 0 && s.last() == DIGIT_ZERO {
        let shorter = s.drop_last();
        assert forall|i: int| 0 <= i < shorter.len() implies is_digit(#[trigger] shorter[i]) by {
            assert(shorter[i] == s[i]);
        }
        lemma_without_trailing_zeros(shorter);
        let kept = without_trailing_zeros(shorter);
        assert(kept + zeros((s.len() - kept.len()) as nat) =~= (kept + zeros(
            (shorter.len() - kept.len()) as nat,
        )).push(DIGIT_ZERO));
        assert(shorter.push(DIGIT_ZERO) =~= s);
    } else {
        assert(s + zeros(0) =~= s);
    }
}

/// The digits of two runs written one after the other make the number of the first run,
/// moved up by as many places as the second run has digits, plus the number of the second.
pub proof fn lemma_digits_concat(first: Seq<u8>, second: Seq<u8>)
    ensures
        digits_value(first + second) == digits_value(first) * pow10(second.len())
            + digits_value(second),
    decreases second.len(),
{
    if second.len() == 0 {
        assert(first + second =~= first);
        assert(pow10(second.len()) == 1);
        assert(digits_value(first) * 1 == digits_value(first));
    } else {
        let shorter = second.drop_last();
        assert((first + second).drop_last() =~= first + shorter);
        assert((first + second).last() == second.last());
        lemma_digits_concat(first, shorter);
        let high = digits_value(first);
        let power = pow10(shorter.len());
        assert(pow10(second.len()) == 10 * power);
        let low = (second.last() - DIGIT_ZERO) as nat;
        assert(digits_value(second) == 10 * digits_value(shorter) + low);
        assert(digits_value(first + second) == 10 * digits_value(first + shorter) + low);
        assert(10 * (high * power) == high * (10 * power)) by (nonlinear_arith);
    }
}

/// The text of a number without its sign: the whole part and, where the number is not
/// whole, a point and the digits after it up to the last one that is not zero.
pub open spec fn unsigned_text(magnitude: nat) -> Seq<u8> {
    let tail = without_trailing_zeros(
        padded_digits(magnitude % (SCALE as nat), FRACTION_DIGITS as nat),
    );
    digits_of(magnitude / (SCALE as nat)) + if tail.len() > 0 {
        seq![POINT] + tail
    } else {
        Seq::<u8>::empty()
    }
}

/// A whole part and eight digits behind it write the whole part times a hundred million
/// plus what the eight digits write.
proof fn lemma_whole_and_eight(whole: Seq<u8>, eight: Seq<u8>)
    requires
        eight.len() == FRACTION_DIGITS,
    ensures
        digits_value(whole + eight) == digits_value(whole) * 100_000_000 + digits_value(eight),
{
    reveal_with_fuel(pow10, 9);
    lemma_digits_concat(whole, eight);
    assert(pow10(eight.len()) == 100_000_000);
}

/// The text of a number without its sign begins and ends with a digit and reads back as
/// the number.
proof fn lemma_unsigned_round_trip(magnitude: nat)
    ensures
        unsigned_text(magnitude).len() > 0,
        is_digit(unsigned_text(magnitude)[0]),
        is_digit(unsigned_text(magnitude).last()),
        unsigned_value(unsigned_text(magnitude)) == Some(magnitude),
{
    let units = magnitude / (SCALE as nat);
    let part = magnitude % (SCALE as nat);
    let whole = digits_of(units);
    let eight = padded_digits(part, FRACTION_DIGITS as nat);
    let tail = without_trailing_zeros(eight);
    let body = unsigned_text(magnitude);
    let pointed = tail.len() > 0;
    let split = whole.len() as int;
    assert(SCALE == 100_000_000);
    assert(pow10(FRACTION_DIGITS as nat) == 100_000_000) by {
        reveal_with_fuel(pow10, 9);
    }
    lemma_digits_of(units);
    lemma_padded_digits(part, FRACTION_DIGITS as nat);
    lemma_without_trailing_zeros(eight);
    assert(is_digit(whole[0]));
    assert(is_digit(whole.last()));
    assert(body[0] == whole[0]);
    assert(is_digit(body.last())) by {
        if pointed {
            assert(body.last() == tail.last());
            assert(is_digit(tail[tail.len() - 1]));
        } else {
            assert(body.last() == whole.last());
        }
    }
    assert(body.subrange(0, split) =~= whole);
    if pointed {
        assert(body[split] == POINT);
        assert(body.subrange(split + 1, body.len() as int) =~= tail);
    } else {
        assert(body =~= whole);
        assert(tail =~= Seq::<u8>::empty());
    }
    lemma_mantissa_read(body, split, pointed, body.len() as int);
    let mantissa = body.take(body.len() as int);
    assert(whole_digits(mantissa) == whole);
    assert(fraction_digits(mantissa) == tail);
    assert(counted_digits(whole + tail, split + 0 + FRACTION_DIGITS) =~= whole + eight) by {
        assert(tail + zeros((eight.len() - tail.len()) as nat) == eight);
    }
    lemma_whole_and_eight(whole, eight);
    assert((SCALE as nat) == 100_000_000nat);
    assert(units == magnitude / 100_000_000);
    assert(part == magnitude % 100_000_000);
    assert(units * 100_000_000 + part == magnitude);
}

/// Reading back what was written gives the number that was written, for every number whose
/// negative can be held too, that is for every number but the most negative one.
pub proof fn lemma_text_round_trip(raw: int)
    requires
        -i64::MAX <= raw <= i64::MAX,
    ensures
        parsed_price(price_text(raw)) == Some(raw),
{
    let magnitude = (if raw < 0 {
        -raw
    } else {
        raw
    }) as nat;
    let body = unsigned_text(magnitude);
    let text = price_text(raw);
    lemma_unsigned_round_trip(magnitude);
    if raw < 0 {
        assert(text =~= seq![MINUS] + body);
        assert(text[0] == MINUS);
        assert(text.last() == body.last());
        assert(text.skip(1) =~= body);
    } else {
        assert(text =~= body);
    }
    assert(trimmed(text) == text);
}

/// Appends the digits of `n`.
fn push_digits(out: &mut Vec<u8>, n: u64)
    ensures
        final(out)@ == old(out)@ + digits_of(n as nat),
    decreases n,
{
    if n >= 10 {
        push_digits(out, n / 10);
    }
    out.push(DIGIT_ZERO + (n % 10) as u8);
    assert(out@ =~= old(out)@ + digits_of(n as nat));
}

/// Appends the last `width` digits of `n`.
fn push_padded(out: &mut Vec<u8>, n: u64, width: usize)
    ensures
        final(out)@ == old(out)@ + padded_digits(n as nat, width as nat),
    decreases width,
{
    if width > 0 {
        push_padded(out, n / 10, width - 1);
        out.push(DIGIT_ZERO + (n % 10) as u8);
    }
    assert(out@ =~= old(out)@ + padded_digits(n as nat, width as nat));
}

/// Appends the last `width` digits of `n` without the zeros at their end.
fn push_fraction(out: &mut Vec<u8>, n: u64, width: usize)
    ensures
        final(out)@ == old(out)@ + without_trailing_zeros(
            padded_digits(n as nat, width as nat),
        ),
{
    let mut rest: u64 = n;
    let mut left: usize = width;
    while left > 0 && rest % 10 == 0
        invariant
            without_trailing_zeros(padded_digits(rest as nat, left as nat))
                == without_trailing_zeros(padded_digits(n as nat, width as nat)),
        decreases left,
    {
        assert(padded_digits(rest as nat, left as nat).drop_last() =~= padded_digits(
            (rest / 10) as nat,
            (left - 1) as nat,
        ));
        rest = rest / 10;
        left = left - 1;
    }
    push_padded(out, rest, left);
}

/// Writes `price` as text. `parse_price` reads the text back as the same number, with one
/// exception: the most negative number that can be held is written, but its text is no
/// price, since its magnitude cannot be held.
pub fn format_price(price: Fixed) -> (r: Vec<u8>)
    ensures
        r@ == price_text(price@),
{
    let wide: i128 = price.raw as i128;
    let magnitude: u64 = (if wide < 0 {
        -wide
    } else {
        wide
    }) as u64;
    assert(SCALE == 100_000_000);
    let units: u64 = magnitude / (SCALE as u64);
    let part: u64 = magnitude % (SCALE as u64);
    let mut out: Vec<u8> = Vec::new();
    if price.raw < 0 {
        out.push(MINUS);
    }
    push_digits(&mut out, units);
    let ghost eight = padded_digits(part as nat, FRACTION_DIGITS as nat);
    proof {
        reveal_with_fuel(pow10, 9);
        lemma_padded_digits(part as nat, FRACTION_DIGITS as nat);
        lemma_without_trailing_zeros(eight);
        lemma_zeros_value(FRACTION_DIGITS as nat);
        if without_trailing_zeros(eight).len() == 0 {
            assert(zeros(FRACTION_DIGITS as nat) =~= eight);
        }
        if part == 0 {
            lemma_padded_zero(FRACTION_DIGITS as nat);
            lemma_strip_zeros(FRACTION_DIGITS as nat);
        }
    }
    if part != 0 {
        out.push(POINT);
        push_fraction(&mut out, part, FRACTION_DIGITS);
    }
    assert(out@ =~= price_text(price@));
    out
}

/// The last digits of zero are zeros.
proof fn lemma_padded_zero(width: nat)
    ensures
        padded_digits(0, width) == zeros(width),
    decreases width,
{
    if width > 0 {
        lemma_padded_zero((width - 1) as nat);
        assert(padded_digits(0, width) =~= zeros(width));
    } else {
        assert(padded_digits(0, width) =~= zeros(width));
    }
}

/// Nothing is left of zeros once the zeros at their end are dropped.
proof fn lemma_strip_zeros(n: nat)
    ensures
        without_trailing_zeros(zeros(n)).len() == 0,
    decreases n,
{
    if n > 0 {
        assert(zeros(n).drop_last() =~= zeros((n - 1) as nat));
        lemma_strip_zeros((n - 1) as nat);
    }
}

/// Zeros write the number zero.
proof fn lemma_zeros_value(n: nat)
    ensures
        digits_value(zeros(n)) == 0,
    decreases n,
{
    if n > 0 {
        assert(zeros(n).drop_last() =~= zeros((n - 1) as nat));
        lemma_zeros_value((n - 1) as nat);
    }
}

} // verus!
