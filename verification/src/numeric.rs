//! Plain numbers: grouped integer part, optional fraction, leading minus.

use vstd::prelude::*;
use crate::data_format::LC_NUMERIC;
use crate::decimal::{decimal, push_decimal};
use crate::grouping::{group_integer, grouped};
use crate::text::push_char;

verus! {

/// The fractional component as written: the decimal point and the
/// digits, or nothing for a number that has no fractional part.
pub open spec fn fraction_text(decimal_point: Seq<char>, fraction: Option<Seq<char>>) -> Seq<char> {
    match fraction {
        Some(digits) => decimal_point + digits,
        None => Seq::empty(),
    }
}

/// The digits of a fraction as a character sequence.
pub open spec fn digits_of(fraction: Option<&str>) -> Option<Seq<char>> {
    match fraction {
        Some(digits) => Some(digits@),
        None => None,
    }
}

/// The sign in front of a plain number.
pub open spec fn minus_text(negative: bool) -> Seq<char> {
    if negative {
        seq!['-']
    } else {
        Seq::empty()
    }
}

/// A number written by the rules of `numeric`.
///
/// `int_part` is the magnitude of the integer part; `fraction` holds
/// the digits behind the decimal point of a number whose fractional
/// part is not zero, and is `None` for any other number.
pub open spec fn numeric_text(
    numeric: &LC_NUMERIC,
    negative: bool,
    int_part: nat,
    fraction: Option<Seq<char>>,
) -> Seq<char> {
    minus_text(negative) + grouped(decimal(int_part), numeric.grouping@, numeric.thousands_sep@)
        + fraction_text(numeric.decimal_point@, fraction)
}

/// Writes a number by the rules of `numeric`.
///
/// The integer part is grouped with the thousands separator. The
/// fractional component (decimal point, then the digits as given) is
/// written only for a number that has one: `fraction` is `None` where
/// the fractional part is zero. A negative number gets a minus sign in
/// front.
pub fn format_number(
    numeric: &LC_NUMERIC,
    negative: bool,
    int_part: u64,
    fraction: Option<&str>,
) -> (text: String)
    ensures
        text@ == numeric_text(numeric, negative, int_part as nat, digits_of(fraction)),
{
    let mut digits = String::new();
    push_decimal(&mut digits, int_part);
    let whole = group_integer(digits.as_str(), &numeric.grouping, numeric.thousands_sep.as_str());
    let mut text = String::new();
    if negative {
        push_char(&mut text, '-');
    }
    text.append(whole.as_str());
    match fraction {
        Some(behind) => {
            text.append(numeric.decimal_point.as_str());
            text.append(behind);
        },
        None => {},
    }
    assert(text@ == numeric_text(numeric, negative, int_part as nat, digits_of(fraction)));
    text
}

} // verus!
