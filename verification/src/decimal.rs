//! Decimal digits of natural numbers.

use vstd::prelude::*;
use crate::text::push_char;

verus! {

/// The character for the decimal digit `d`; meaningful for `d < 10`.
pub open spec fn digit(d: nat) -> char {
    ((48 + d) as u8) as char
}

/// Ten to the power `k`.
pub open spec fn pow10(k: nat) -> nat
    decreases k,
{
    if k == 0 {
        1
    } else {
        10 * pow10((k - 1) as nat)
    }
}

/// The decimal notation of `n`, most significant digit first, without
/// leading zeros; zero is written `0`.
pub open spec fn decimal(n: nat) -> Seq<char>
    decreases n,
{
    if n < 10 {
        seq![digit(n)]
    } else {
        decimal(n / 10).push(digit(n % 10))
    }
}

/// The last `width` decimal digits of `n`, most significant first, with
/// zeros in front where `n` has fewer digits.
pub open spec fn fixed_width(n: nat, width: nat) -> Seq<char>
    decreases width,
{
    if width == 0 {
        Seq::empty()
    } else {
        fixed_width(n / 10, (width - 1) as nat).push(digit(n % 10))
    }
}

/// `pow10` is positive and grows with its argument.
pub proof fn lemma_pow10_grows(i: nat, j: nat)
    requires
        i <= j,
    ensures
        0 < pow10(i) <= pow10(j),
    decreases j,
{
    if j == 0 {
    } else if i == j {
        lemma_pow10_grows((i - 1) as nat, (j - 1) as nat);
    } else {
        lemma_pow10_grows(i, (j - 1) as nat);
    }
}

/// A number written at a fixed width has exactly that many characters.
pub proof fn lemma_fixed_width_len(n: nat, width: nat)
    ensures
        fixed_width(n, width).len() == width,
    decreases width,
{
    if width > 0 {
        lemma_fixed_width_len(n / 10, (width - 1) as nat);
    }
}

/// The decimal notation holds the characters `0` to `9` only.
pub proof fn lemma_decimal_is_digits(n: nat)
    ensures
        forall|i: int| 0 <= i < decimal(n).len() ==> '0' <= #[trigger] decimal(n)[i] <= '9',
    decreases n,
{
    let last = digit(n % 10);
    assert('0' <= last <= '9');
    if n >= 10 {
        lemma_decimal_is_digits(n / 10);
        let front = decimal(n / 10);
        assert forall|i: int| 0 <= i < decimal(n).len() implies '0' <= #[trigger] decimal(n)[i]
            <= '9' by {
            if i < front.len() {
                assert(decimal(n)[i] == front[i]);
            } else {
                assert(decimal(n)[i] == last);
            }
        }
    }
}

/// `count` zeros.
pub open spec fn zeros(count: nat) -> Seq<char> {
    Seq::new(count, |i: int| '0')
}

/// At a fixed width a number is its decimal notation with zeros in
/// front: as many as the notation is short of the width.
pub proof fn lemma_fixed_width_pads(n: nat, width: nat)
    requires
        width >= 1,
        n < pow10(width),
    ensures
        decimal(n).len() <= width,
        fixed_width(n, width) == zeros((width - decimal(n).len()) as nat) + decimal(n),
    decreases width,
{
    let rest = (width - 1) as nat;
    if width == 1 {
        assert(pow10(1) == 10 * pow10(0));
        assert(fixed_width(n / 10, 0) == Seq::<char>::empty());
        assert(fixed_width(n, 1) =~= zeros(0) + decimal(n));
    } else if n < 10 {
        lemma_pow10_grows(0, rest);
        lemma_fixed_width_pads(0, rest);
        assert(n / 10 == 0 && n % 10 == n);
        assert(decimal(0) == seq!['0']);
        assert(fixed_width(n, width) =~= zeros(rest) + decimal(n));
    } else {
        lemma_fixed_width_pads(n / 10, rest);
        let front = zeros((rest - decimal(n / 10).len()) as nat);
        assert((front + decimal(n / 10)).push(digit(n % 10)) =~= front + decimal(n / 10).push(
            digit(n % 10),
        ));
    }
}

/// The character of a decimal digit.
pub fn digit_char(d: u8) -> (c: char)
    requires
        d < 10,
    ensures
        c == digit(d as nat),
{
    (48u8 + d) as char
}

/// Appends the decimal notation of `n` to `text`.
pub fn push_decimal(text: &mut String, n: u64)
    ensures
        final(text)@ == old(text)@ + decimal(n as nat),
    decreases n,
{
    if n >= 10 {
        push_decimal(text, n / 10);
    }
    push_char(text, digit_char((n % 10) as u8));
}

/// Appends the last `width` decimal digits of `n` to `text`, zeros in
/// front where `n` has fewer.
pub fn push_fixed_width(text: &mut String, n: u64, width: u8)
    ensures
        final(text)@ == old(text)@ + fixed_width(n as nat, width as nat),
    decreases width,
{
    if width > 0 {
        push_fixed_width(text, n / 10, width - 1);
        push_char(text, digit_char((n % 10) as u8));
    }
}

} // verus!
