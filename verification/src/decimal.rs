//! Signed decimal numbers as bytes: reading them, and writing them padded
//! with zeros to a width.

use crate::byte_classes::{is_digit, DIGIT_ZERO, MINUS, PLUS};
use vstd::prelude::*;

verus! {

/// The byte that shows the digit `d`.
pub open spec fn digit_byte(d: int) -> u8 {
    (DIGIT_ZERO + d) as u8
}

/// The decimal digits of `n`, most significant first, without leading zeros.
pub open spec fn digits_of(n: nat) -> Seq<u8>
    decreases n,
{
    if n < 10 {
        seq![digit_byte(n as int)]
    } else {
        digits_of(n / 10).push(digit_byte((n % 10) as int))
    }
}

/// The number that a run of decimal digits denotes.
pub open spec fn digits_value(digits: Seq<u8>) -> nat
    decreases digits.len(),
{
    if digits.len() == 0 {
        0
    } else {
        (digits_value(digits.drop_last()) * 10 + (digits.last() - DIGIT_ZERO)) as nat
    }
}

/// Whether every byte of `digits` is a decimal digit.
pub open spec fn all_digits(digits: Seq<u8>) -> bool {
    forall|i: int| 0 <= i < digits.len() ==> is_digit(#[trigger] digits[i])
}

/// Whether `text` begins with a sign.
pub open spec fn has_sign(text: Seq<u8>) -> bool {
    text.len() > 0 && (text[0] == MINUS || text[0] == PLUS)
}

/// `text` without its sign, if it has one.
pub open spec fn unsigned_part(text: Seq<u8>) -> Seq<u8> {
    if has_sign(text) {
        text.subrange(1, text.len() as int)
    } else {
        text
    }
}

/// The number that `text` denotes, before any limit on its size: an optional
/// `+` or `-`, then at least one digit and nothing else.
pub open spec fn unbounded_decimal_value(text: Seq<u8>) -> Option<int> {
    let digits = unsigned_part(text);
    if digits.len() > 0 && all_digits(digits) {
        if text[0] == MINUS {
            Some(-(digits_value(digits) as int))
        } else {
            Some(digits_value(digits) as int)
        }
    } else {
        None
    }
}

/// The number that `text` denotes, if it is a decimal number that a signed
/// 64-bit integer can hold.
pub open spec fn decimal_value(text: Seq<u8>) -> Option<int> {
    match unbounded_decimal_value(text) {
        Some(v) => if i64::MIN <= v <= i64::MAX {
            Some(v)
        } else {
            None
        },
        None => None,
    }
}

/// `n` zero digits.
pub open spec fn zeros(n: nat) -> Seq<u8> {
    Seq::new(n, |i: int| DIGIT_ZERO)
}

/// The absolute value of `v`.
pub open spec fn magnitude(v: int) -> nat {
    if v < 0 {
        (-v) as nat
    } else {
        v as nat
    }
}

/// The sign that `v` is written with: `-` for a negative number, else none.
pub open spec fn sign_of(v: int) -> Seq<u8> {
    if v < 0 {
        seq![MINUS]
    } else {
        Seq::empty()
    }
}

/// How many zeros pad `v` to `width` bytes. The sign counts towards the width.
pub open spec fn padding_of(v: int, width: nat) -> nat {
    let natural = sign_of(v).len() + digits_of(magnitude(v)).len();
    if natural < width {
        (width - natural) as nat
    } else {
        0
    }
}

/// `v` in decimal, padded to at least `width` bytes with zeros between the
/// sign and the digits.
pub open spec fn padded_decimal(v: int, width: nat) -> Seq<u8> {
    sign_of(v) + zeros(padding_of(v, width)) + digits_of(magnitude(v))
}

/// `v` in decimal without padding.
pub open spec fn decimal_text(v: int) -> Seq<u8> {
    padded_decimal(v, 0)
}

/// The digits of a number are digits, there is at least one, and they denote
/// that number.
pub proof fn lemma_digits_of(n: nat)
    ensures
        digits_of(n).len() >= 1,
        all_digits(digits_of(n)),
        digits_value(digits_of(n)) == n,
    decreases n,
{
    if n < 10 {
        let d = digits_of(n);
        assert(d.drop_last() =~= Seq::<u8>::empty());
        assert(digits_value(d.drop_last()) == 0);
    } else {
        lemma_digits_of(n / 10);
        let d = digits_of(n);
        assert(d.drop_last() =~= digits_of(n / 10));
        assert(d.last() == digit_byte((n % 10) as int));
    }
}

/// Zeros in front of a run of digits do not change the number it denotes.
pub proof fn lemma_leading_zeros(n: nat, digits: Seq<u8>)
    ensures
        digits_value(zeros(n) + digits) == digits_value(digits),
        all_digits(digits) ==> all_digits(zeros(n) + digits),
    decreases digits.len(),
{
    let whole = zeros(n) + digits;
    if digits.len() == 0 {
        assert(whole =~= zeros(n));
        lemma_zeros_value(n);
    } else {
        lemma_leading_zeros(n, digits.drop_last());
        assert(whole.drop_last() =~= zeros(n) + digits.drop_last());
        assert(whole.last() == digits.last());
    }
    if all_digits(digits) {
        assert forall|i: int| 0 <= i < whole.len() implies is_digit(#[trigger] whole[i]) by {
            if i >= n {
                assert(whole[i] == digits[i - n]);
            }
        }
    }
}

/// A run of zeros denotes zero.
pub proof fn lemma_zeros_value(n: nat)
    ensures
        digits_value(zeros(n)) == 0,
    decreases n,
{
    if n > 0 {
        lemma_zeros_value((n - 1) as nat);
        assert(zeros(n).drop_last() =~= zeros((n - 1) as nat));
    }
}

/// Reading what was written gives the number back, whatever the width.
pub proof fn lemma_decimal_round_trip(v: int, width: nat)
    requires
        i64::MIN <= v <= i64::MAX,
    ensures
        decimal_value(padded_decimal(v, width)) == Some(v),
{
    let text = padded_decimal(v, width);
    let body = zeros(padding_of(v, width)) + digits_of(magnitude(v));
    lemma_digits_of(magnitude(v));
    lemma_leading_zeros(padding_of(v, width), digits_of(magnitude(v)));
    if v < 0 {
        assert(text[0] == MINUS);
        assert(unsigned_part(text) =~= body);
    } else {
        assert(text =~= body);
        assert(is_digit(body[0]));
        assert(unsigned_part(text) =~= body);
    }
}

/// Two numbers written to the same width give the same bytes only if they
/// are the same number.
pub proof fn lemma_padded_decimal_injective(a: int, b: int, width: nat)
    requires
        i64::MIN <= a <= i64::MAX,
        i64::MIN <= b <= i64::MAX,
        padded_decimal(a, width) == padded_decimal(b, width),
    ensures
        a == b,
{
    lemma_decimal_round_trip(a, width);
    lemma_decimal_round_trip(b, width);
}

/// Reads a signed decimal number: `Some` exactly when `text` is an optional
/// sign followed by digits only, at least one, and the number fits.
pub fn parse_decimal(text: &[u8]) -> (value: Option<i64>)
    ensures
        decimal_value(text@) == match value {
            Some(v) => Some(v as int),
            None => None::<int>,
        },
{
    let n: usize = text.len();
    if n == 0 {
        return None;
    }
    let negative: bool = text[0] == MINUS;
    let start: usize = if text[0] == MINUS || text[0] == PLUS {
        1
    } else {
        0
    };
    if start == n {
        return None;
    }
    let ghost digits = unsigned_part(text@);
    assert(digits =~= text@.subrange(start as int, n as int));
    let limit: i128 = 9223372036854775808;
    let mut acc: i128 = 0;
    let mut i: usize = start;
    assert(digits.subrange(0, 0) =~= Seq::<u8>::empty());
    while i < n
        invariant
            start <= i <= n,
            n == text@.len(),
            digits == text@.subrange(start as int, n as int),
            digits == unsigned_part(text@),
            limit == 9223372036854775808,
            forall|k: int| 0 <= k < i - start ==> is_digit(#[trigger] digits[k]),
            0 <= acc <= limit * 10 + 9,
            acc <= limit ==> acc == digits_value(digits.subrange(0, i - start)),
            acc > limit ==> digits_value(digits.subrange(0, i - start)) > limit,
        decreases n - i,
    {
        let b: u8 = text[i];
        if !is_digit(b) {
            assert(digits[i - start] == b);
            assert(!all_digits(digits));
            return None;
        }
        proof {
            let longer = digits.subrange(0, i - start + 1);
            assert(longer.drop_last() =~= digits.subrange(0, i - start));
            assert(longer.last() == b);
        }
        if acc <= limit {
            acc = acc * 10 + ((b - DIGIT_ZERO) as i128);
        }
        i += 1;
    }
    assert(digits.subrange(0, n - start) =~= digits);
    assert(all_digits(digits));
    if negative {
        if acc > limit {
            None
        } else {
            Some((-acc) as i64)
        }
    } else {
        if acc >= limit {
            None
        } else {
            Some(acc as i64)
        }
    }
}

/// Writes `value` in decimal, padded with zeros to at least `width` bytes.
pub fn format_padded(value: i64, width: usize) -> (text: Vec<u8>)
    ensures
        text@ == padded_decimal(value as int, width as nat),
{
    let negative: bool = value < 0;
    let whole: i128 = if negative {
        -(value as i128)
    } else {
        value as i128
    };
    let mut reversed: Vec<u8> = Vec::new();
    reversed.push(DIGIT_ZERO + ((whole % 10) as u8));
    let mut rest: i128 = whole / 10;
    assert(digits_of(whole as nat) =~= (if rest > 0 {
        digits_of(rest as nat)
    } else {
        Seq::<u8>::empty()
    }) + reversed@.reverse());
    while rest > 0
        invariant
            0 <= rest <= whole,
            reversed@.len() >= 1,
            digits_of(whole as nat) =~= (if rest > 0 {
                digits_of(rest as nat)
            } else {
                Seq::<u8>::empty()
            }) + reversed@.reverse(),
        decreases rest,
    {
        let ghost before = reversed@;
        let ghost head = if rest / 10 > 0 {
            digits_of((rest / 10) as nat)
        } else {
            Seq::<u8>::empty()
        };
        assert(digits_of(rest as nat) =~= head.push(digit_byte((rest % 10) as int)));
        reversed.push(DIGIT_ZERO + ((rest % 10) as u8));
        assert(reversed@.reverse() =~= seq![digit_byte((rest % 10) as int)] + before.reverse());
        rest = rest / 10;
    }
    let ghost digits = digits_of(whole as nat);
    assert(digits =~= reversed@.reverse());
    assert(whole as nat == magnitude(value as int));
    let count: usize = reversed.len();
    let sign_len: usize = if negative {
        1
    } else {
        0
    };
    let mut text: Vec<u8> = Vec::new();
    if negative {
        text.push(MINUS);
    }
    assert(text@ =~= sign_of(value as int));
    let mut padding: usize = 0;
    if count < width && sign_len < width - count {
        padding = width - count - sign_len;
    }
    assert(padding == padding_of(value as int, width as nat));
    let mut k: usize = 0;
    while k < padding
        invariant
            k <= padding,
            text@ =~= sign_of(value as int) + zeros(k as nat),
        decreases padding - k,
    {
        text.push(DIGIT_ZERO);
        k += 1;
    }
    let ghost front = text@;
    let mut j: usize = 0;
    while j < count
        invariant
            j <= count,
            count == reversed@.len(),
            digits == reversed@.reverse(),
            text@ =~= front + digits.subrange(0, j as int),
        decreases count - j,
    {
        text.push(reversed[count - 1 - j]);
        j += 1;
    }
    assert(digits.subrange(0, count as int) =~= digits);
    text
}

} // verus!
