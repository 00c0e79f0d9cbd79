//! Whole parts of double-precision numbers, read from their bit patterns.

use vstd::prelude::*;
use vstd::arithmetic::div_mod::lemma_div_denominator;

verus! {

/// Two to the power 52: the weight of the hidden bit of a significand.
pub const HIDDEN_BIT: u64 = 0x10_0000_0000_0000;

/// Two to the power 63: the weight of the sign bit.
pub const SIGN_BIT: u64 = 0x8000_0000_0000_0000;

/// The exponent field of infinities and of values that are no number.
pub const EXPONENT_SPECIAL: u64 = 2047;

/// The exponent field of the numbers from one up to two.
pub const EXPONENT_ONE: u64 = 1023;

/// The exponent field at which the significand, read as an integer, is
/// the value itself.
pub const EXPONENT_WHOLE: u64 = 1075;

/// Two to the power `k`.
pub open spec fn two_to(k: nat) -> nat
    decreases k,
{
    if k == 0 {
        1
    } else {
        2 * two_to((k - 1) as nat)
    }
}

/// `n`, or the largest `u64` where `n` is larger.
pub open spec fn capped(n: nat) -> nat {
    if n > u64::MAX {
        u64::MAX as nat
    } else {
        n
    }
}

/// The whole part of the double with the bit pattern `bits`, as an
/// index: `None` for an infinity and for what is no number, zero for
/// every negative value and every magnitude below one, and otherwise
/// the value with its fraction cut off, capped at the largest `u64`.
pub open spec fn whole_part(bits: u64) -> Option<nat> {
    let sign = bits / SIGN_BIT;
    let exponent = (bits / HIDDEN_BIT) % 2048;
    let significand = HIDDEN_BIT + bits % HIDDEN_BIT;
    if exponent == EXPONENT_SPECIAL {
        None
    } else if sign == 1 || exponent < EXPONENT_ONE {
        Some(0)
    } else if exponent >= EXPONENT_WHOLE {
        Some(capped(significand as nat * two_to((exponent - EXPONENT_WHOLE) as nat)))
    } else {
        Some(significand as nat / two_to((EXPONENT_WHOLE - exponent) as nat))
    }
}

/// `two_to` is positive and grows with its argument.
pub proof fn lemma_two_to_grows(i: nat, j: nat)
    requires
        i <= j,
    ensures
        0 < two_to(i) <= two_to(j),
    decreases j,
{
    if j == 0 {
    } else if i == j {
        lemma_two_to_grows((i - 1) as nat, (j - 1) as nat);
    } else {
        lemma_two_to_grows(i, (j - 1) as nat);
    }
}

/// `value` times two to the power `shift`, capped at the largest `u64`.
pub fn scale_up(value: u64, shift: u64) -> (scaled: u64)
    ensures
        scaled == capped(value as nat * two_to(shift as nat)),
{
    let mut scaled: u64 = value;
    let mut k: u64 = 0;
    assert(value as nat * two_to(0) == value) by (nonlinear_arith)
        requires
            two_to(0) == 1,
    ;
    while k < shift
        invariant
            k <= shift,
            scaled == value as nat * two_to(k as nat),
        decreases shift - k,
    {
        assert(value as nat * two_to((k + 1) as nat) == 2 * (value as nat * two_to(k as nat)))
            by (nonlinear_arith)
            requires
                two_to((k + 1) as nat) == 2 * two_to(k as nat),
        ;
        if scaled > u64::MAX / 2 {
            proof {
                lemma_two_to_grows((k + 1) as nat, shift as nat);
                assert(value as nat * two_to((k + 1) as nat) <= value as nat * two_to(
                    shift as nat,
                )) by (nonlinear_arith)
                    requires
                        two_to((k + 1) as nat) <= two_to(shift as nat),
                ;
            }
            return u64::MAX;
        }
        scaled = scaled * 2;
        k = k + 1;
    }
    scaled
}

/// `value` divided by two to the power `shift`, the remainder dropped.
pub fn scale_down(value: u64, shift: u64) -> (scaled: u64)
    ensures
        scaled == value as nat / two_to(shift as nat),
{
    let mut scaled: u64 = value;
    let mut k: u64 = 0;
    assert(two_to(0) == 1);
    while k < shift
        invariant
            k <= shift,
            scaled == value as nat / two_to(k as nat),
        decreases shift - k,
    {
        proof {
            lemma_two_to_grows(0, k as nat);
            lemma_div_denominator(value as int, two_to(k as nat) as int, 2);
            assert(two_to(k as nat) * 2 == two_to((k + 1) as nat));
        }
        scaled = scaled / 2;
        k = k + 1;
    }
    scaled
}

/// The whole part of the double with the bit pattern `bits`.
///
/// Gives `None` for an infinity and for what is no number. A negative
/// value or a magnitude below one gives zero; any other value gives its
/// integer part, or the largest `u64` where that is too large.
pub fn whole_part_of(bits: u64) -> (whole: Option<u64>)
    ensures
        match whole {
            Some(n) => whole_part(bits) == Some(n as nat),
            None => whole_part(bits) is None,
        },
{
    let sign = bits / SIGN_BIT;
    let exponent = (bits / HIDDEN_BIT) % 2048;
    let significand = HIDDEN_BIT + bits % HIDDEN_BIT;
    if exponent == EXPONENT_SPECIAL {
        None
    } else if sign == 1 || exponent < EXPONENT_ONE {
        Some(0)
    } else if exponent >= EXPONENT_WHOLE {
        Some(scale_up(significand, exponent - EXPONENT_WHOLE))
    } else {
        Some(scale_down(significand, EXPONENT_WHOLE - exponent))
    }
}

} // verus!
