//! Monetary amounts: rounding is done, the amount comes in minor units.

use vstd::prelude::*;
use vstd::arithmetic::div_mod::{lemma_basic_div, lemma_small_mod};
use crate::data_format::LC_MONETARY;
use crate::decimal::{decimal, fixed_width, lemma_pow10_grows, pow10, push_decimal, push_fixed_width};
use crate::grouping::{group_integer, grouped};
use crate::text::push_char;

verus! {

/// Sign position: the amount stands in parentheses and no sign is shown.
pub const SIGN_PARENTHESES: u8 = 0;

/// Sign position: the sign comes before everything else.
pub const SIGN_BEFORE_ALL: u8 = 1;

/// Sign position: the sign comes after everything else.
pub const SIGN_AFTER_ALL: u8 = 2;

/// Sign position: the sign goes with the currency symbol, in front.
pub const SIGN_BEFORE_SYMBOL: u8 = 3;

/// Sign position: the sign goes with the currency symbol, behind.
pub const SIGN_AFTER_SYMBOL: u8 = 4;

/// The magnitude of `amount`.
pub open spec fn magnitude(amount: int) -> nat {
    if amount < 0 {
        (-amount) as nat
    } else {
        amount as nat
    }
}

/// The digits of an amount of `units` minor units: grouped integer part,
/// decimal point, and exactly `frac_digits` digits of fraction.
pub open spec fn amount_text(money: &LC_MONETARY, grouping: Seq<u8>, units: nat) -> Seq<char> {
    let scale = pow10(money.frac_digits as nat);
    grouped(decimal(units / scale), grouping, money.mon_thousands_sep@) + money.mon_decimal_point@
        + fixed_width(units % scale, money.frac_digits as nat)
}

/// Amount and currency symbol side by side, in the order `precedes`
/// says, one space between them where `spaced` holds.
pub open spec fn with_symbol(symbol: Seq<char>, precedes: bool, spaced: bool, amount: Seq<char>) -> Seq<
    char,
> {
    let gap = if spaced {
        seq![' ']
    } else {
        Seq::empty()
    };
    if precedes {
        symbol + gap + amount
    } else {
        amount + gap + symbol
    }
}

/// `body` with the sign placed by `position`.
///
/// Positions 3 and 4 put the sign in front of or behind the whole of
/// `body`, as 1 and 2 do; any other position above 2 shows no sign.
pub open spec fn with_sign(sign: Seq<char>, position: u8, body: Seq<char>) -> Seq<char> {
    if position == SIGN_PARENTHESES {
        seq!['('] + body + seq![')']
    } else if position == SIGN_BEFORE_ALL || position == SIGN_BEFORE_SYMBOL {
        sign + body
    } else if position == SIGN_AFTER_ALL || position == SIGN_AFTER_SYMBOL {
        body + sign
    } else {
        body
    }
}

/// An amount of `amount` minor units written by the rules of `money`,
/// its integer part grouped by `grouping`.
///
/// A negative amount takes the negative sign and the placement rules of
/// the negative side, any other amount those of the positive side.
pub open spec fn money_text(money: &LC_MONETARY, grouping: Seq<u8>, amount: int) -> Seq<char> {
    let digits = amount_text(money, grouping, magnitude(amount));
    if amount < 0 {
        with_sign(
            money.negative_sign@,
            money.n_sign_posn,
            with_symbol(money.currency_symbol@, money.n_cs_precedes, money.n_sep_by_space, digits),
        )
    } else {
        with_sign(
            money.positive_sign@,
            money.p_sign_posn,
            with_symbol(money.currency_symbol@, money.p_cs_precedes, money.p_sep_by_space, digits),
        )
    }
}

/// The magnitude of a signed amount.
pub fn magnitude_of(amount: i64) -> (units: u64)
    ensures
        units == magnitude(amount as int),
{
    if amount < 0 {
        let below: i64 = -(amount + 1);
        below as u64 + 1
    } else {
        amount as u64
    }
}

/// Splits `units` minor units into whole units and the rest, with
/// `places` digits behind the decimal point.
pub fn split_units(units: u64, places: u8) -> (parts: (u64, u64))
    ensures
        parts.0 == units as nat / pow10(places as nat),
        parts.1 == units as nat % pow10(places as nat),
{
    let mut scale: u64 = 1;
    let mut i: u8 = 0;
    while i < places
        invariant
            i <= places,
            scale == pow10(i as nat),
        decreases places - i,
    {
        if scale > units / 10 {
            proof {
                lemma_pow10_grows((i + 1) as nat, places as nat);
                assert(pow10((i + 1) as nat) == 10 * pow10(i as nat));
                lemma_basic_div(units as int, pow10(places as nat) as int);
                lemma_small_mod(units as nat, pow10(places as nat));
            }
            return (0, units);
        }
        scale = scale * 10;
        i = i + 1;
    }
    proof {
        lemma_pow10_grows(0, places as nat);
    }
    (units / scale, units % scale)
}

/// Writes an amount of `amount` minor units by the rules of `money`.
///
/// `amount` is the value already rounded to the locale's number of
/// fractional digits and scaled by ten to that power: with two digits,
/// 1234.50 is `123450`. The integer part is grouped by `grouping` with
/// the monetary thousands separator; the fraction is written with as
/// many digits as the locale asks for. Currency symbol and sign are
/// placed by the rules of the side the amount falls on.
pub fn format_amount(money: &LC_MONETARY, grouping: &Vec<u8>, amount: i64) -> (text: String)
    ensures
        text@ == money_text(money, grouping@, amount as int),
{
    let units = magnitude_of(amount);
    let (whole, rest) = split_units(units, money.frac_digits);
    let mut whole_digits = String::new();
    push_decimal(&mut whole_digits, whole);
    let mut digits = group_integer(
        whole_digits.as_str(),
        grouping,
        money.mon_thousands_sep.as_str(),
    );
    digits.append(money.mon_decimal_point.as_str());
    push_fixed_width(&mut digits, rest, money.frac_digits);
    assert(digits@ == amount_text(money, grouping@, units as nat));

    let negative = amount < 0;
    let precedes = if negative {
        money.n_cs_precedes
    } else {
        money.p_cs_precedes
    };
    let spaced = if negative {
        money.n_sep_by_space
    } else {
        money.p_sep_by_space
    };
    let position = if negative {
        money.n_sign_posn
    } else {
        money.p_sign_posn
    };
    let sign = if negative {
        money.negative_sign.as_str()
    } else {
        money.positive_sign.as_str()
    };

    let mut body = String::new();
    if precedes {
        body.append(money.currency_symbol.as_str());
        if spaced {
            push_char(&mut body, ' ');
        }
        body.append(digits.as_str());
    } else {
        body.append(digits.as_str());
        if spaced {
            push_char(&mut body, ' ');
        }
        body.append(money.currency_symbol.as_str());
    }
    assert(body@ == with_symbol(money.currency_symbol@, precedes, spaced, digits@));

    let mut text = String::new();
    if position == SIGN_PARENTHESES {
        push_char(&mut text, '(');
        text.append(body.as_str());
        push_char(&mut text, ')');
    } else if position == SIGN_BEFORE_ALL || position == SIGN_BEFORE_SYMBOL {
        text.append(sign);
        text.append(body.as_str());
    } else if position == SIGN_AFTER_ALL || position == SIGN_AFTER_SYMBOL {
        text.append(body.as_str());
        text.append(sign);
    } else {
        text.append(body.as_str());
    }
    assert(text@ == with_sign(sign@, position, body@));
    text
}

/// A sign position that is not known shows no sign, and the two
/// positions beside the currency symbol place the sign as the two
/// positions around the whole do.
pub proof fn lemma_sign_positions(sign: Seq<char>, position: u8, body: Seq<char>)
    ensures
        position > SIGN_AFTER_SYMBOL ==> with_sign(sign, position, body) == body,
        with_sign(sign, SIGN_BEFORE_SYMBOL, body) == with_sign(sign, SIGN_BEFORE_ALL, body),
        with_sign(sign, SIGN_AFTER_SYMBOL, body) == with_sign(sign, SIGN_AFTER_ALL, body),
{
}

/// An amount and the amount of the opposite sign are written with the
/// same digits: only sign and placement differ between the two sides.
pub proof fn lemma_digits_ignore_the_sign(money: &LC_MONETARY, grouping: Seq<u8>, amount: int)
    ensures
        amount_text(money, grouping, magnitude(amount)) == amount_text(
            money,
            grouping,
            magnitude(-amount),
        ),
{
}

} // verus!
