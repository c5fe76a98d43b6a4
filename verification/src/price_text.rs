//! Prices as text: the notation that one line of a price file holds.
//!
//! A line is a price if, once white space at its end is dropped, it is an optional sign, a
//! mantissa and an optional exponent. The mantissa is a run of digits, optionally a decimal
//! point and a second run of digits, with at least one digit in all. The exponent is the
//! letter `e` in either case, an optional sign and at least one digit; it moves the decimal
//! point to the right by that many places, or to the left where it is negative. Of the
//! number so written the whole part and the first eight digits after the point are kept;
//! further digits are dropped. Anything else is no price.

use vstd::prelude::*;
use crate::fixed::{Fixed, FRACTION_DIGITS};

verus! {

/// The byte `.`.
pub const POINT: u8 = 46;

/// The byte `-`.
pub const MINUS: u8 = 45;

/// The byte `+`.
pub const PLUS: u8 = 43;

/// The byte `0`.
pub const DIGIT_ZERO: u8 = 48;

/// The byte `e`.
pub const SMALL_E: u8 = 101;

/// The byte `E`.
pub const CAPITAL_E: u8 = 69;

/// Exponents are read exactly up to this size, ten to the power of thirty. A larger one
/// moves the point past every digit that a line can hold.
const EXPONENT_LIMIT: u128 = 1_000_000_000_000_000_000_000_000_000_000;

/// Whether `c` is white space: a blank, a tab, a line feed, a vertical tab, a form feed or a
/// carriage return.
pub open spec fn is_space(c: u8) -> bool {
    c == 32 || 9 <= c <= 13
}

/// Whether `c` is a decimal digit.
pub open spec fn is_digit(c: u8) -> bool {
    48 <= c <= 57
}

/// Whether `s` holds digits only.
pub open spec fn all_digits(s: Seq<u8>) -> bool {
    forall|i: int| 0 <= i < s.len() ==> is_digit(#[trigger] s[i])
}

/// `s` without the white space at its end.
pub open spec fn trimmed(s: Seq<u8>) -> Seq<u8>
    decreases s.len(),
{
    if s.len() > 0 && is_space(s.last()) {
        trimmed(s.drop_last())
    } else {
        s
    }
}

/// The number that the digits `s` write.
pub open spec fn digits_value(s: Seq<u8>) -> nat
    decreases s.len(),
{
    if s.len() == 0 {
        0
    } else {
        10 * digits_value(s.drop_last()) + (s.last() - DIGIT_ZERO) as nat
    }
}

/// The position of the first byte of `s` that is `a` or `b`; the length of `s` where it
/// holds neither.
pub open spec fn first_of(s: Seq<u8>, a: u8, b: u8) -> int
    decreases s.len(),
{
    if s.len() == 0 || s[0] == a || s[0] == b {
        0
    } else {
        1 + first_of(s.skip(1), a, b)
    }
}

/// The digits of a mantissa before its decimal point.
pub open spec fn whole_digits(mantissa: Seq<u8>) -> Seq<u8> {
    mantissa.take(first_of(mantissa, POINT, POINT))
}

/// The digits of a mantissa after its decimal point; none where it has no point.
pub open spec fn fraction_digits(mantissa: Seq<u8>) -> Seq<u8> {
    let point = first_of(mantissa, POINT, POINT);
    if point < mantissa.len() {
        mantissa.skip(point + 1)
    } else {
        Seq::<u8>::empty()
    }
}

/// Whether `mantissa` is one: digits, at most one point among them, at least one digit.
pub open spec fn is_mantissa(mantissa: Seq<u8>) -> bool {
    &&& all_digits(whole_digits(mantissa))
    &&& all_digits(fraction_digits(mantissa))
    &&& whole_digits(mantissa).len() + fraction_digits(mantissa).len() > 0
}

/// The number that the text after the letter `e` writes: an optional sign and at least one
/// digit. None where the text is not of that form.
pub open spec fn exponent_value(text: Seq<u8>) -> Option<int> {
    let signed = text.len() > 0 && (text[0] == MINUS || text[0] == PLUS);
    let digits = if signed {
        text.skip(1)
    } else {
        text
    };
    if digits.len() > 0 && all_digits(digits) {
        Some(
            if text[0] == MINUS {
                -(digits_value(digits) as int)
            } else {
                digits_value(digits) as int
            },
        )
    } else {
        None
    }
}

/// The exponent of an unsigned number `body`: what stands behind its letter `e`, and zero
/// where it has none or where that is no number.
spec fn exponent_of(body: Seq<u8>) -> int {
    let mark = first_of(body, SMALL_E, CAPITAL_E);
    if mark < body.len() {
        match exponent_value(body.skip(mark + 1)) {
            Some(value) => value,
            None => 0,
        }
    } else {
        0
    }
}

/// The first `n` of the digits `digits`, with zeros where `digits` has fewer than `n`;
/// nothing where `n` is not positive.
pub open spec fn counted_digits(digits: Seq<u8>, n: int) -> Seq<u8> {
    Seq::new(
        if n > 0 {
            n as nat
        } else {
            0
        },
        |i: int|
            if i < digits.len() {
                digits[i]
            } else {
                DIGIT_ZERO
            },
    )
}

/// The raw value of an unsigned number `body`, where it is one.
///
/// With the point moved by the exponent, the digits that count are those of the mantissa
/// up to the eighth behind the point, so as many as the whole part has digits, plus the
/// exponent, plus eight. What they write is the raw value.
pub open spec fn unsigned_value(body: Seq<u8>) -> Option<nat> {
    let mark = first_of(body, SMALL_E, CAPITAL_E);
    let mantissa = body.take(mark);
    let exponent = if mark < body.len() {
        exponent_value(body.skip(mark + 1))
    } else {
        Some(0int)
    };
    if is_mantissa(mantissa) && exponent.is_some() {
        Some(
            digits_value(
                counted_digits(
                    whole_digits(mantissa) + fraction_digits(mantissa),
                    whole_digits(mantissa).len() + exponent.unwrap() + FRACTION_DIGITS,
                ),
            ),
        )
    } else {
        None
    }
}

/// The raw value of the price that `line` holds; none where the line is no price or the
/// price is too large to be held.
pub open spec fn parsed_price(line: Seq<u8>) -> Option<int> {
    let text = trimmed(line);
    let signed = text.len() > 0 && (text[0] == MINUS || text[0] == PLUS);
    let negative = text.len() > 0 && text[0] == MINUS;
    let body = if signed {
        text.skip(1)
    } else {
        text
    };
    match unsigned_value(body) {
        Some(value) => if value <= i64::MAX {
            Some(
                if negative {
                    -(value as int)
                } else {
                    value as int
                },
            )
        } else {
            None
        },
        None => None,
    }
}

/// The first `a` or `b` is where `first_of` says: nothing before that position is either,
/// and the position holds one of them unless it is the end.
pub proof fn lemma_first_of(s: Seq<u8>, a: u8, b: u8)
    ensures
        0 <= first_of(s, a, b) <= s.len(),
        forall|k: int| 0 <= k < first_of(s, a, b) ==> #[trigger] s[k] != a && s[k] != b,
        first_of(s, a, b) < s.len() ==> s[first_of(s, a, b)] == a || s[first_of(s, a, b)] == b,
    decreases s.len(),
{
    if s.len() == 0 || s[0] == a || s[0] == b {
    } else {
        let rest = s.skip(1);
        lemma_first_of(rest, a, b);
        assert forall|k: int| 0 <= k < first_of(s, a, b) implies #[trigger] s[k] != a && s[k]
            != b by {
            if k > 0 {
                assert(rest[k - 1] == s[k]);
            }
        }
        if first_of(s, a, b) < s.len() {
            assert(rest[first_of(rest, a, b)] == s[first_of(s, a, b)]);
        }
    }
}

/// A position is the first `a` or `b` as soon as nothing before it is either and it holds
/// one of them or is the end.
pub proof fn lemma_first_is_at(s: Seq<u8>, a: u8, b: u8, at: int)
    requires
        0 <= at <= s.len(),
        forall|k: int| 0 <= k < at ==> #[trigger] s[k] != a && s[k] != b,
        at < s.len() ==> s[at] == a || s[at] == b,
    ensures
        first_of(s, a, b) == at,
{
    lemma_first_of(s, a, b);
    let found = first_of(s, a, b);
    if found < at {
        assert(s[found] != a && s[found] != b);
    } else if found > at {
        assert(s[at] != a && s[at] != b);
    }
}

/// Counting one digit more appends that digit, or a zero past the end of the digits.
pub proof fn lemma_counted_step(digits: Seq<u8>, n: int)
    requires
        n >= 0,
    ensures
        counted_digits(digits, n + 1).drop_last() == counted_digits(digits, n),
        counted_digits(digits, n + 1).last() == if n < digits.len() {
            digits[n]
        } else {
            DIGIT_ZERO
        },
        digits_value(counted_digits(digits, n + 1)) == 10 * digits_value(
            counted_digits(digits, n),
        ) + (counted_digits(digits, n + 1).last() - DIGIT_ZERO) as nat,
{
    let longer = counted_digits(digits, n + 1);
    assert(longer.len() == n + 1);
    assert(longer.drop_last() =~= counted_digits(digits, n));
    assert(digits_value(longer) == 10 * digits_value(longer.drop_last()) + (longer.last()
        - DIGIT_ZERO) as nat);
}

/// The more digits count, the larger the number they write.
pub proof fn lemma_counted_grows(digits: Seq<u8>, fewer: int, more: int)
    requires
        all_digits(digits),
        fewer <= more,
    ensures
        digits_value(counted_digits(digits, fewer)) <= digits_value(counted_digits(digits, more)),
    decreases more - fewer,
{
    if fewer < more {
        if more <= 0 {
            assert(counted_digits(digits, fewer) =~= counted_digits(digits, more));
        } else {
            lemma_counted_grows(digits, fewer, more - 1);
            lemma_counted_step(digits, more - 1);
            if more - 1 < digits.len() {
                assert(is_digit(digits[more - 1]));
            }
        }
    }
}

/// Zeros counted past the end of digits that write zero leave it at zero.
pub proof fn lemma_counted_zero(digits: Seq<u8>, fewer: int, more: int)
    requires
        digits.len() <= fewer <= more,
        digits_value(counted_digits(digits, fewer)) == 0,
    ensures
        digits_value(counted_digits(digits, more)) == 0,
    decreases more - fewer,
{
    if fewer < more {
        lemma_counted_zero(digits, fewer, more - 1);
        lemma_counted_step(digits, more - 1);
    }
}

/// Nineteen zeros counted past the end of digits that do not write zero make a number that
/// cannot be held.
pub proof fn lemma_counted_overflows(digits: Seq<u8>, n: int)
    requires
        all_digits(digits),
        digits_value(counted_digits(digits, digits.len() as int)) > 0,
        n >= digits.len() + 19,
    ensures
        digits_value(counted_digits(digits, n)) > i64::MAX,
{
    let len = digits.len() as int;
    let base = digits_value(counted_digits(digits, len));
    lemma_counted_step(digits, len);
    lemma_counted_step(digits, len + 1);
    lemma_counted_step(digits, len + 2);
    lemma_counted_step(digits, len + 3);
    lemma_counted_step(digits, len + 4);
    lemma_counted_step(digits, len + 5);
    lemma_counted_step(digits, len + 6);
    lemma_counted_step(digits, len + 7);
    lemma_counted_step(digits, len + 8);
    lemma_counted_step(digits, len + 9);
    lemma_counted_step(digits, len + 10);
    lemma_counted_step(digits, len + 11);
    lemma_counted_step(digits, len + 12);
    lemma_counted_step(digits, len + 13);
    lemma_counted_step(digits, len + 14);
    lemma_counted_step(digits, len + 15);
    lemma_counted_step(digits, len + 16);
    lemma_counted_step(digits, len + 17);
    lemma_counted_step(digits, len + 18);
    assert(digits_value(counted_digits(digits, len + 19)) == 10_000_000_000_000_000_000 * base);
    lemma_counted_grows(digits, len + 19, n);
}

fn is_space_byte(c: u8) -> (r: bool)
    ensures
        r == is_space(c),
{
    c == 32 || (9 <= c && c <= 13)
}

fn is_digit_byte(c: u8) -> (r: bool)
    ensures
        r == is_digit(c),
{
    48 <= c && c <= 57
}

/// The length of `line` without the white space at its end.
fn trimmed_length(line: &[u8]) -> (end: usize)
    ensures
        end <= line@.len(),
        trimmed(line@) == line@.take(end as int),
{
    let mut end: usize = line.len();
    assert(line@.take(end as int) =~= line@);
    while end > 0 && is_space_byte(line[end - 1])
        invariant
            end <= line@.len(),
            trimmed(line@) == trimmed(line@.take(end as int)),
        decreases end,
    {
        assert(line@.take(end as int).drop_last() =~= line@.take(end - 1));
        end = end - 1;
    }
    end
}

/// Where the digits of `line` that begin at `start` stop, `end` at the latest.
fn skip_digits(line: &[u8], start: usize, end: usize) -> (stop: usize)
    requires
        start <= end <= line@.len(),
    ensures
        start <= stop <= end,
        all_digits(line@.subrange(start as int, stop as int)),
        stop < end ==> !is_digit(line@[stop as int]),
{
    let mut i: usize = start;
    while i < end && is_digit_byte(line[i])
        invariant
            start <= i <= end <= line@.len(),
            all_digits(line@.subrange(start as int, i as int)),
        decreases end - i,
    {
        let ghost longer = line@.subrange(start as int, i + 1);
        assert forall|k: int| 0 <= k < longer.len() implies is_digit(#[trigger] longer[k]) by {
            if k < longer.len() - 1 {
                assert(longer[k] == line@.subrange(start as int, i as int)[k]);
            }
        }
        i = i + 1;
    }
    i
}

/// An exponent as far as it matters: its value up to the limit, or only its side beyond.
enum Exponent {
    Within(i128),
    Above,
    Below,
}

/// Reads the exponent that `line` holds from `start` to `end`.
fn read_exponent(line: &[u8], start: usize, end: usize) -> (r: Option<Exponent>)
    requires
        start <= end <= line@.len(),
    ensures
        match r {
            Some(Exponent::Within(value)) => exponent_value(
                line@.subrange(start as int, end as int),
            ) == Some(value as int) && -EXPONENT_LIMIT <= value <= EXPONENT_LIMIT,
            Some(Exponent::Above) => exponent_value(line@.subrange(start as int, end as int))
                matches Some(value) && value > EXPONENT_LIMIT,
            Some(Exponent::Below) => exponent_value(line@.subrange(start as int, end as int))
                matches Some(value) && value < -EXPONENT_LIMIT,
            None => exponent_value(line@.subrange(start as int, end as int)).is_none(),
        },
{
    let ghost text = line@.subrange(start as int, end as int);
    let signed: bool = start < end && (line[start] == MINUS || line[start] == PLUS);
    let negative: bool = start < end && line[start] == MINUS;
    let first: usize = if signed {
        start + 1
    } else {
        start
    };
    let ghost digits = if signed {
        text.skip(1)
    } else {
        text
    };
    assert(digits =~= line@.subrange(first as int, end as int));
    if first == end {
        return None;
    }
    let mut i: usize = first;
    let mut value: u128 = 0;
    let mut within: bool = true;
    assert(line@.subrange(first as int, first as int) =~= Seq::<u8>::empty());
    while i < end && is_digit_byte(line[i])
        invariant
            first <= i <= end <= line@.len(),
            all_digits(line@.subrange(first as int, i as int)),
            within ==> value == digits_value(line@.subrange(first as int, i as int)) && value
                <= EXPONENT_LIMIT,
            !within ==> digits_value(line@.subrange(first as int, i as int)) > EXPONENT_LIMIT,
        decreases end - i,
    {
        let ghost longer = line@.subrange(first as int, i + 1);
        assert(longer.drop_last() =~= line@.subrange(first as int, i as int));
        assert(longer.last() == line@[i as int]);
        assert forall|k: int| 0 <= k < longer.len() implies is_digit(#[trigger] longer[k]) by {
            if k < longer.len() - 1 {
                assert(longer[k] == line@.subrange(first as int, i as int)[k]);
            }
        }
        if within {
            value = value * 10 + (line[i] - DIGIT_ZERO) as u128;
            if value > EXPONENT_LIMIT {
                within = false;
            }
        }
        i = i + 1;
    }
    if i < end {
        assert(!is_digit(digits[i - first]));
        return None;
    }
    if within {
        if negative {
            Some(Exponent::Within(-(value as i128)))
        } else {
            Some(Exponent::Within(value as i128))
        }
    } else if negative {
        Some(Exponent::Below)
    } else {
        Some(Exponent::Above)
    }
}

/// The number that the first `wanted` digits write, of the digits that `line` holds in
/// two runs, from `whole_start` and from `fraction_start`; none where it cannot be held.
fn count_digits(
    line: &[u8],
    whole_start: usize,
    whole_end: usize,
    fraction_start: usize,
    fraction_end: usize,
    wanted: i128,
) -> (r: Option<u64>)
    requires
        whole_start <= whole_end <= fraction_start <= fraction_end <= line@.len(),
        all_digits(line@.subrange(whole_start as int, whole_end as int)),
        all_digits(line@.subrange(fraction_start as int, fraction_end as int)),
    ensures
        match r {
            Some(value) => value == digits_value(
                counted_digits(
                    line@.subrange(whole_start as int, whole_end as int) + line@.subrange(
                        fraction_start as int,
                        fraction_end as int,
                    ),
                    wanted as int,
                ),
            ) && value <= i64::MAX,
            None => digits_value(
                counted_digits(
                    line@.subrange(whole_start as int, whole_end as int) + line@.subrange(
                        fraction_start as int,
                        fraction_end as int,
                    ),
                    wanted as int,
                ),
            ) > i64::MAX,
        },
{
    let ghost whole = line@.subrange(whole_start as int, whole_end as int);
    let ghost fraction = line@.subrange(fraction_start as int, fraction_end as int);
    let ghost digits = whole + fraction;
    let whole_len: usize = whole_end - whole_start;
    let total: usize = whole_len + (fraction_end - fraction_start);
    let mut i: i128 = 0;
    let mut value: u128 = 0;
    let mut fits: bool = true;
    assert forall|k: int| 0 <= k < digits.len() implies is_digit(#[trigger] digits[k]) by {
        if k < whole.len() {
            assert(digits[k] == whole[k]);
        } else {
            assert(digits[k] == fraction[k - whole.len()]);
        }
    }
    assert(counted_digits(digits, 0) =~= Seq::<u8>::empty());
    if wanted <= 0 {
        assert(counted_digits(digits, wanted as int) =~= Seq::<u8>::empty());
        return Some(0);
    }
    while i < wanted && fits && !(i >= total as i128 && value == 0)
        invariant
            0 <= i <= wanted,
            whole_start <= whole_end <= fraction_start <= fraction_end <= line@.len(),
            whole_len == whole_end - whole_start,
            total == whole_len + (fraction_end - fraction_start),
            whole == line@.subrange(whole_start as int, whole_end as int),
            fraction == line@.subrange(fraction_start as int, fraction_end as int),
            digits == whole + fraction,
            all_digits(digits),
            fits ==> value == digits_value(counted_digits(digits, i as int)) && value
                <= i64::MAX,
            !fits ==> digits_value(counted_digits(digits, i as int)) > i64::MAX,
        decreases wanted - i,
    {
        let digit: u8 = if i < whole_len as i128 {
            line[whole_start + (i as usize)]
        } else if i < total as i128 {
            line[fraction_start + ((i as usize) - whole_len)]
        } else {
            DIGIT_ZERO
        };
        proof {
            lemma_counted_step(digits, i as int);
            if i < whole_len {
                assert(digits[i as int] == whole[i as int]);
            } else if i < total {
                assert(digits[i as int] == fraction[i - whole_len]);
            }
            assert(digit == counted_digits(digits, i + 1).last());
            if i < total {
                assert(is_digit(digits[i as int]));
            }
        }
        value = value * 10 + (digit - DIGIT_ZERO) as u128;
        if value > i64::MAX as u128 {
            fits = false;
        }
        i = i + 1;
    }
    proof {
        if i < wanted {
            if fits {
                lemma_counted_zero(digits, i as int, wanted as int);
            } else {
                lemma_counted_grows(digits, i as int, wanted as int);
            }
        }
    }
    if fits {
        Some(value as u64)
    } else {
        None
    }
}

/// Where a mantissa was read up to `stop` of `body`, with `whole_len` digits before the
/// point and, where `pointed`, a point and digits up to `stop` behind them, and where
/// `stop` is the end or holds the letter `e`: the letter stands at `stop`, if anywhere,
/// and the mantissa has the digits that were read.
pub proof fn lemma_mantissa_read(body: Seq<u8>, whole_len: int, pointed: bool, stop: int)
    requires
        0 <= whole_len <= stop <= body.len(),
        all_digits(body.subrange(0, whole_len)),
        pointed ==> whole_len < stop && body[whole_len] == POINT && all_digits(
            body.subrange(whole_len + 1, stop),
        ),
        !pointed ==> stop == whole_len,
        stop < body.len() ==> body[stop] == SMALL_E || body[stop] == CAPITAL_E,
    ensures
        first_of(body, SMALL_E, CAPITAL_E) == stop,
        whole_digits(body.take(stop)) == body.subrange(0, whole_len),
        fraction_digits(body.take(stop)) == if pointed {
            body.subrange(whole_len + 1, stop)
        } else {
            Seq::<u8>::empty()
        },
{
    let whole = body.subrange(0, whole_len);
    let mantissa = body.take(stop);
    assert forall|k: int| 0 <= k < stop implies #[trigger] body[k] != SMALL_E && body[k]
        != CAPITAL_E by {
        if k < whole_len {
            assert(is_digit(whole[k]));
        } else if k > whole_len {
            assert(is_digit(body.subrange(whole_len + 1, stop)[k - whole_len - 1]));
        }
    }
    lemma_first_is_at(body, SMALL_E, CAPITAL_E, stop);
    assert forall|k: int| 0 <= k < whole_len implies #[trigger] mantissa[k] != POINT by {
        assert(is_digit(whole[k]));
    }
    lemma_first_is_at(mantissa, POINT, POINT, whole_len);
    assert(whole_digits(mantissa) =~= whole);
    if pointed {
        assert(fraction_digits(mantissa) =~= body.subrange(whole_len + 1, stop));
    }
}

/// Where the reading of a mantissa stopped at a byte of `body` that is neither a digit nor
/// the letter `e`, nor a point that the mantissa could still take, `body` is no number.
proof fn lemma_mantissa_refused(body: Seq<u8>, whole_len: int, pointed: bool, stop: int)
    requires
        0 <= whole_len <= stop < body.len(),
        all_digits(body.subrange(0, whole_len)),
        pointed ==> whole_len < stop && body[whole_len] == POINT && all_digits(
            body.subrange(whole_len + 1, stop),
        ),
        !pointed ==> stop == whole_len && body[stop] != POINT,
        !is_digit(body[stop]),
        body[stop] != SMALL_E && body[stop] != CAPITAL_E,
    ensures
        unsigned_value(body).is_none(),
{
    let whole = body.subrange(0, whole_len);
    assert forall|k: int| 0 <= k <= stop implies #[trigger] body[k] != SMALL_E && body[k]
        != CAPITAL_E by {
        if k < whole_len {
            assert(is_digit(whole[k]));
        } else if whole_len < k < stop {
            assert(is_digit(body.subrange(whole_len + 1, stop)[k - whole_len - 1]));
        }
    }
    lemma_first_of(body, SMALL_E, CAPITAL_E);
    let mark = first_of(body, SMALL_E, CAPITAL_E);
    assert(mark > stop) by {
        if mark <= stop {
            assert(body[mark] != SMALL_E && body[mark] != CAPITAL_E);
        }
    }
    let mantissa = body.take(mark);
    assert(mantissa[stop] == body[stop]);
    lemma_first_of(mantissa, POINT, POINT);
    let point = first_of(mantissa, POINT, POINT);
    assert forall|k: int| 0 <= k < whole_len implies #[trigger] mantissa[k] != POINT by {
        assert(is_digit(whole[k]));
    }
    if pointed {
        lemma_first_is_at(mantissa, POINT, POINT, whole_len);
        assert(fraction_digits(mantissa)[stop - whole_len - 1] == body[stop]);
        assert(!is_digit(fraction_digits(mantissa)[stop - whole_len - 1]));
    } else {
        assert(point > stop) by {
            if point <= stop {
                assert(mantissa[point] == POINT);
                if point < stop {
                    assert(mantissa[point] != POINT);
                }
            }
        }
        assert(whole_digits(mantissa)[stop] == body[stop]);
        assert(!is_digit(whole_digits(mantissa)[stop]));
    }
}

/// Reads the mantissa that `line` holds from `start` on and returns where its whole part
/// ends, whether a point follows, and where the reading stopped.
fn read_mantissa(line: &[u8], start: usize, end: usize) -> (r: (usize, bool, usize))
    requires
        start <= end <= line@.len(),
    ensures
        start <= r.0 <= r.2 <= end,
        all_digits(line@.subrange(start as int, r.0 as int)),
        r.1 ==> r.0 < r.2 && line@[r.0 as int] == POINT && all_digits(
            line@.subrange(r.0 + 1, r.2 as int),
        ),
        !r.1 ==> r.2 == r.0 && (r.0 < end ==> line@[r.0 as int] != POINT),
        r.2 < end ==> !is_digit(line@[r.2 as int]),
{
    let whole_end: usize = skip_digits(line, start, end);
    if whole_end < end && line[whole_end] == POINT {
        let stop: usize = skip_digits(line, whole_end + 1, end);
        (whole_end, true, stop)
    } else {
        (whole_end, false, whole_end)
    }
}

/// The raw value of the number that `line` holds between `start` and `end`, without a
/// sign; none where there is no number or it cannot be held.
fn read_unsigned(line: &[u8], start: usize, end: usize) -> (r: Option<u64>)
    requires
        start <= end <= line@.len(),
    ensures
        match r {
            Some(value) => unsigned_value(line@.subrange(start as int, end as int)) == Some(
                value as nat,
            ) && value <= i64::MAX,
            None => match unsigned_value(line@.subrange(start as int, end as int)) {
                Some(value) => value > i64::MAX,
                None => true,
            },
        },
{
    let ghost body = line@.subrange(start as int, end as int);
    let (whole_end, pointed, stop) = read_mantissa(line, start, end);
    let fraction_start: usize = if pointed {
        whole_end + 1
    } else {
        whole_end
    };
    let ghost whole_len = whole_end - start;
    let ghost relative = stop - start;
    proof {
        assert(body.subrange(0, whole_len) =~= line@.subrange(start as int, whole_end as int));
        if pointed {
            assert(body.subrange(whole_len + 1, relative) =~= line@.subrange(
                whole_end + 1,
                stop as int,
            ));
        }
    }
    let marked: bool = stop < end && (line[stop] == SMALL_E || line[stop] == CAPITAL_E);
    if stop < end && !marked {
        proof {
            lemma_mantissa_refused(body, whole_len, pointed, relative);
        }
        return None;
    }
    proof {
        lemma_mantissa_read(body, whole_len, pointed, relative);
    }
    let ghost whole = line@.subrange(start as int, whole_end as int);
    let ghost fraction = line@.subrange(fraction_start as int, stop as int);
    assert(fraction_digits(body.take(relative)) =~= fraction);
    let exponent: Exponent = if marked {
        assert(body.skip(relative + 1) =~= line@.subrange(stop + 1, end as int));
        match read_exponent(line, stop + 1, end) {
            Some(exponent) => exponent,
            None => {
                return None;
            },
        }
    } else {
        Exponent::Within(0)
    };
    if (whole_end - start) + (stop - fraction_start) == 0 {
        return None;
    }
    let ghost digits = whole + fraction;
    let ghost moved = exponent_of(body);
    match exponent {
        Exponent::Below => {
            assert(counted_digits(digits, whole.len() + moved + FRACTION_DIGITS) =~= Seq::<
                u8,
            >::empty());
            Some(0)
        },
        Exponent::Above => {
            let plain: Option<u64> = count_digits(
                line,
                start,
                whole_end,
                fraction_start,
                stop,
                ((whole_end - start) + (stop - fraction_start)) as i128,
            );
            proof {
                assert forall|k: int| 0 <= k < digits.len() implies is_digit(
                    #[trigger] digits[k],
                ) by {
                    if k < whole.len() {
                        assert(digits[k] == whole[k]);
                    } else {
                        assert(digits[k] == fraction[k - whole.len()]);
                    }
                }
                let n = whole.len() + moved + FRACTION_DIGITS;
                if digits_value(counted_digits(digits, digits.len() as int)) == 0 {
                    lemma_counted_zero(digits, digits.len() as int, n);
                } else {
                    lemma_counted_overflows(digits, n);
                }
            }
            match plain {
                Some(0) => Some(0),
                _ => None,
            }
        },
        Exponent::Within(value) => count_digits(
            line,
            start,
            whole_end,
            fraction_start,
            stop,
            (whole_end - start) as i128 + value + FRACTION_DIGITS as i128,
        ),
    }
}

/// Reads the price that `line` holds.
///
/// Returns the price exactly when the line is one in the notation above and its value can
/// be held; a line that is no price, or whose price is too large, gives none.
pub fn parse_price(line: &[u8]) -> (r: Option<Fixed>)
    ensures
        match r {
            Some(price) => parsed_price(line@) == Some(price@),
            None => parsed_price(line@).is_none(),
        },
{
    let end: usize = trimmed_length(line);
    let ghost text = line@.take(end as int);
    let signed: bool = end > 0 && (line[0] == MINUS || line[0] == PLUS);
    let negative: bool = end > 0 && line[0] == MINUS;
    let start: usize = if signed {
        1
    } else {
        0
    };
    let ghost body = if signed {
        text.skip(1)
    } else {
        text
    };
    assert(body =~= line@.subrange(start as int, end as int));
    match read_unsigned(line, start, end) {
        None => None,
        Some(value) => if negative {
            Some(Fixed { raw: -(value as i64) })
        } else {
            Some(Fixed { raw: value as i64 })
        },
    }
}

} // verus!
