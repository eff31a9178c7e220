//! Decimal rendering of integers.

use vstd::prelude::*;

verus! {

/// The ASCII digit for `d`, where `d` is below ten.
pub open spec fn digit_byte(d: nat) -> u8
    recommends
        d < 10,
{
    (0x30 + d) as u8
}

/// The decimal digits of `n`, most significant first, without leading zeros.
pub open spec fn decimal_digits(n: nat) -> Seq<u8>
    decreases n,
{
    if n < 10 {
        seq![digit_byte(n)]
    } else {
        decimal_digits(n / 10).push(digit_byte(n % 10))
    }
}

/// The decimal rendering of `i`: a minus sign if it is negative, then the
/// digits of its magnitude.
pub open spec fn integer_text(i: int) -> Seq<u8> {
    if i < 0 {
        seq![0x2du8] + decimal_digits((-i) as nat)
    } else {
        decimal_digits(i as nat)
    }
}

/// The decimal rendering of `i`.
pub fn integer_bytes(i: i64) -> (text: Vec<u8>)
    ensures
        text@ == integer_text(i as int),
{
    let negative = i < 0;
    let magnitude: u64 = if negative {
        ((-(i + 1)) as u64) + 1
    } else {
        i as u64
    };
    // Digits come out least significant first.
    let mut low_first: Vec<u8> = Vec::new();
    let mut rest: u64 = magnitude;
    while rest >= 10
        invariant
            decimal_digits(magnitude as nat) == decimal_digits(rest as nat) + low_first@.reverse(),
        decreases rest,
    {
        let digit: u8 = 0x30 + (rest % 10) as u8;
        proof {
            let shorter = decimal_digits((rest / 10) as nat);
            assert(decimal_digits(rest as nat) == shorter.push(digit));
            assert(shorter.push(digit) + low_first@.reverse() =~= shorter + low_first@.push(
                digit,
            ).reverse());
        }
        low_first.push(digit);
        rest = rest / 10;
    }
    let digit: u8 = 0x30 + rest as u8;
    proof {
        assert(decimal_digits(rest as nat) == seq![digit]);
        assert(seq![digit] + low_first@.reverse() =~= low_first@.push(digit).reverse());
    }
    low_first.push(digit);

    let mut text: Vec<u8> = Vec::new();
    if negative {
        text.push(0x2d);
    }
    let ghost sign = text@;
    let ghost digits = low_first@.reverse();
    let mut left: usize = low_first.len();
    while left > 0
        invariant
            left <= low_first.len(),
            digits == low_first@.reverse(),
            text@ == sign + digits.subrange(0, low_first.len() - left),
        decreases left,
    {
        left -= 1;
        text.push(low_first[left]);
        assert(text@ =~= sign + digits.subrange(0, low_first.len() - left));
    }
    assert(text@ =~= sign + digits);
    text
}

} // verus!
