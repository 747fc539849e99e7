//! Signed integers in decimal: an optional sign and at least one digit.

use vstd::prelude::*;

verus! {

/// Whether `b` is one of the ASCII digits `0` to `9`.
pub open spec fn is_digit(b: u8) -> bool {
    48 <= b <= 57
}

/// Whether every byte of `d` is a digit.
pub open spec fn all_digits(d: Seq<u8>) -> bool {
    forall|i: int| 0 <= i < d.len() ==> is_digit(#[trigger] d[i])
}

/// The number that a run of digits denotes, the first digit weighing most.
pub open spec fn digits_value(d: Seq<u8>) -> nat
    decreases d.len(),
{
    if d.len() == 0 {
        0
    } else {
        (digits_value(d.drop_last()) * 10 + (d.last() - 48)) as nat
    }
}

/// The digits of `n`, without leading zeros; `0` is the one digit `0`.
pub open spec fn decimal(n: nat) -> Seq<u8>
    decreases n,
{
    if n < 10 {
        seq![(48 + n) as u8]
    } else {
        decimal(n / 10).push((48 + n % 10) as u8)
    }
}

/// The text of `n`: a minus sign where it is negative, then its digits.
pub open spec fn integer_text(n: int) -> Seq<u8> {
    if n < 0 {
        seq![45u8] + decimal((-n) as nat)
    } else {
        decimal(n as nat)
    }
}

/// The digits of a text: what follows its sign, where it has one.
pub open spec fn digits_of(text: Seq<u8>) -> Seq<u8> {
    if text.len() > 0 && (text[0] == 43 || text[0] == 45) {
        text.subrange(1, text.len() as int)
    } else {
        text
    }
}

/// The integer that a text denotes: an optional `+` or `-`, then one or
/// more digits and nothing else.
pub open spec fn parse_integer_text(text: Seq<u8>) -> Option<int> {
    let digits = digits_of(text);
    if digits.len() == 0 || !all_digits(digits) {
        None
    } else if text[0] == 45 {
        Some(-(digits_value(digits) as int))
    } else {
        Some(digits_value(digits) as int)
    }
}

/// The 64-bit integer that a text denotes, where that integer fits.
pub open spec fn parse_i64_text(text: Seq<u8>) -> Option<i64> {
    match parse_integer_text(text) {
        Some(v) => if i64::MIN <= v <= i64::MAX {
            Some(v as i64)
        } else {
            None
        },
        None => None,
    }
}

/// The digits of `n`, or nothing where `n` is zero: what stands before the
/// last digit of a number ten times as large.
spec fn leading_digits(n: nat) -> Seq<u8> {
    if n == 0 {
        Seq::empty()
    } else {
        decimal(n)
    }
}

proof fn lemma_decimal_split(n: nat)
    ensures
        decimal(n) == leading_digits(n / 10).push((48 + n % 10) as u8),
{
    if n < 10 {
        assert(decimal(n) =~= Seq::<u8>::empty().push((48 + n % 10) as u8));
    }
}

/// The digits of a number are digits, and denote that number.
pub proof fn lemma_decimal_value(n: nat)
    ensures
        decimal(n).len() > 0,
        all_digits(decimal(n)),
        digits_value(decimal(n)) == n,
    decreases n,
{
    if n < 10 {
        assert(decimal(n).drop_last() =~= Seq::<u8>::empty());
        assert(decimal(n).last() == 48 + n);
        assert(digits_value(Seq::<u8>::empty()) == 0);
    } else {
        lemma_decimal_value(n / 10);
        let d = decimal(n);
        assert(d.drop_last() =~= decimal(n / 10));
        assert(d.last() == 48 + n % 10);
        assert forall|i: int| 0 <= i < d.len() implies is_digit(#[trigger] d[i]) by {
            if i < d.len() - 1 {
                assert(d[i] == decimal(n / 10)[i]);
            }
        }
    }
}

/// More digits never denote less.
proof fn lemma_digits_value_grows(d: Seq<u8>, k: int)
    requires
        all_digits(d),
        0 <= k <= d.len(),
    ensures
        digits_value(d.take(k)) <= digits_value(d),
    decreases d.len() - k,
{
    if k < d.len() {
        lemma_digits_value_grows(d, k + 1);
        assert(d.take(k + 1).drop_last() =~= d.take(k));
        assert(is_digit(d[k]));
    } else {
        assert(d.take(k) =~= d);
    }
}

/// Writing a 64-bit integer as text and reading the text again gives the
/// integer back.
pub proof fn lemma_integer_round_trip(n: i64)
    ensures
        parse_i64_text(integer_text(n as int)) == Some(n),
{
    let text = integer_text(n as int);
    if n < 0 {
        let m = (-(n as int)) as nat;
        lemma_decimal_value(m);
        assert(digits_of(text) =~= decimal(m));
    } else {
        let m = n as nat;
        lemma_decimal_value(m);
        assert(is_digit(decimal(m)[0]));
        assert(digits_of(text) =~= decimal(m));
    }
}

/// The text of `n`.
pub fn render_i64(n: i64) -> (text: Vec<u8>)
    ensures
        text@ == integer_text(n as int),
{
    let magnitude: u64 = if n < 0 {
        (-(n as i128)) as u64
    } else {
        n as u64
    };
    let mut rest: u64 = magnitude;
    let mut reversed: Vec<u8> = Vec::new();
    proof {
        lemma_decimal_split(rest as nat);
    }
    reversed.push(48 + (rest % 10) as u8);
    rest = rest / 10;
    while rest > 0
        invariant
            reversed.len() > 0,
            decimal(magnitude as nat) == leading_digits(rest as nat) + reversed@.reverse(),
        decreases rest,
    {
        proof {
            lemma_decimal_split(rest as nat);
        }
        let ghost before = reversed@;
        reversed.push(48 + (rest % 10) as u8);
        rest = rest / 10;
        assert(reversed@.reverse() =~= seq![reversed@.last()] + before.reverse());
        assert(decimal(magnitude as nat) =~= leading_digits(rest as nat) + reversed@.reverse());
    }
    let mut text: Vec<u8> = Vec::new();
    if n < 0 {
        text.push(45u8);
    }
    let ghost sign = text@;
    let mut left: usize = reversed.len();
    while left > 0
        invariant
            left <= reversed.len(),
            text@ == sign + reversed@.reverse().take(reversed.len() - left),
        decreases left,
    {
        left -= 1;
        text.push(reversed[left]);
        assert(text@ =~= sign + reversed@.reverse().take(reversed.len() - left));
    }
    assert(reversed@.reverse().take(reversed.len() as int) =~= reversed@.reverse());
    assert(decimal(magnitude as nat) =~= reversed@.reverse());
    text
}

/// The integer that `text` denotes, or `None` where it denotes none that
/// fits in 64 bits.
pub fn parse_i64(text: &[u8]) -> (parsed: Option<i64>)
    ensures
        parsed == parse_i64_text(text@),
{
    let n = text.len();
    if n == 0 {
        return None;
    }
    let negative = text[0] == 45u8;
    let start: usize = if text[0] == 45u8 || text[0] == 43u8 {
        1
    } else {
        0
    };
    if start == n {
        return None;
    }
    let ghost digits = digits_of(text@);
    assert(digits =~= text@.subrange(start as int, n as int));
    let limit: u128 = 9223372036854775808u128;
    let mut magnitude: u128 = 0;
    let mut i: usize = start;
    while i < n
        invariant
            start <= i <= n,
            n == text.len(),
            digits == digits_of(text@),
            digits == text@.subrange(start as int, n as int),
            negative == (text@[0] == 45),
            all_digits(digits.take(i - start)),
            magnitude == digits_value(digits.take(i - start)),
            magnitude <= limit,
            limit == 9223372036854775808u128,
        decreases n - i,
    {
        let b = text[i];
        if b < 48u8 || b > 57u8 {
            assert(!is_digit(digits[i - start]));
            return None;
        }
        let ghost k = i - start;
        assert(digits.take(k + 1).drop_last() =~= digits.take(k));
        assert(digits.take(k + 1).last() == b);
        assert forall|j: int| 0 <= j < k + 1 implies is_digit(#[trigger] digits.take(k + 1)[j]) by {
            if j < k {
                assert(digits.take(k + 1)[j] == digits.take(k)[j]);
            }
        }
        let next: u128 = magnitude * 10 + (b - 48u8) as u128;
        if next > limit {
            proof {
                if all_digits(digits) {
                    lemma_digits_value_grows(digits, k + 1);
                }
            }
            return None;
        }
        magnitude = next;
        i += 1;
    }
    assert(digits.take(n - start) =~= digits);
    if negative {
        if magnitude == limit {
            Some(i64::MIN)
        } else {
            Some(-(magnitude as i64))
        }
    } else if magnitude == limit {
        None
    } else {
        Some(magnitude as i64)
    }
}

} // verus!
