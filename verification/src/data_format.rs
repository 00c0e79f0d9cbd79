//! The formatting rules of one locale, as plain data.

use vstd::prelude::*;

verus! {

/// Calendar names and the date pattern.
#[allow(non_camel_case_types)]
#[derive(Debug, Clone)]
pub struct LC_TIME {
    /// The seven day names.
    pub days: Vec<String>,
    /// The twelve month names.
    pub months: Vec<String>,
    /// Pattern handed to the date formatter.
    pub date_fmt: String,
}

/// Symbols and digit grouping of plain numbers.
#[allow(non_camel_case_types)]
#[derive(Debug, Clone)]
pub struct LC_NUMERIC {
    pub decimal_point: String,
    pub thousands_sep: String,
    /// Group sizes from the least significant digit outward; the last
    /// entry repeats, and an empty sequence means no grouping.
    pub grouping: Vec<u8>,
}

/// Symbols, signs and placement rules of monetary amounts.
#[allow(non_camel_case_types)]
#[derive(Debug, Clone)]
pub struct LC_MONETARY {
    pub currency_symbol: String,
    pub int_curr_symbol: String,
    pub mon_decimal_point: String,
    pub mon_thousands_sep: String,
    pub positive_sign: String,
    pub negative_sign: String,
    /// Number of digits after the decimal point.
    pub frac_digits: u8,
    /// For non-negative amounts: does the currency symbol come first?
    pub p_cs_precedes: bool,
    /// For non-negative amounts: is there a space beside the symbol?
    pub p_sep_by_space: bool,
    /// For non-negative amounts: where the sign goes (see `money`).
    pub p_sign_posn: u8,
    /// For negative amounts: does the currency symbol come first?
    pub n_cs_precedes: bool,
    /// For negative amounts: is there a space beside the symbol?
    pub n_sep_by_space: bool,
    /// For negative amounts: where the sign goes (see `money`).
    pub n_sign_posn: u8,
}

/// The name of the collation mode.
#[allow(non_camel_case_types)]
#[derive(Debug, Clone)]
pub struct LC_COLLATE {
    pub sort_order: String,
}

/// Everything one locale says about formatting.
#[allow(non_snake_case)]
#[derive(Debug, Clone)]
pub struct DataFormat {
    pub LC_TIME: LC_TIME,
    pub LC_NUMERIC: LC_NUMERIC,
    pub LC_MONETARY: LC_MONETARY,
    pub LC_COLLATE: LC_COLLATE,
    /// Arithmetic expression in the count `n` that selects a plural form.
    pub PLURAL_RULES: String,
}

/// Number of day names a locale must give.
pub const DAYS_IN_WEEK: usize = 7;

/// Number of month names a locale must give.
pub const MONTHS_IN_YEAR: usize = 12;

/// Every group size is positive.
pub open spec fn all_positive(sizes: Seq<u8>) -> bool {
    forall|i: int| 0 <= i < sizes.len() ==> sizes[i] > 0
}

impl LC_TIME {
    /// Seven days and twelve months.
    pub open spec fn wf(&self) -> bool {
        &&& self.days@.len() == DAYS_IN_WEEK
        &&& self.months@.len() == MONTHS_IN_YEAR
    }

    pub fn is_valid(&self) -> (valid: bool)
        ensures
            valid == self.wf(),
    {
        self.days.len() == DAYS_IN_WEEK && self.months.len() == MONTHS_IN_YEAR
    }
}

impl LC_NUMERIC {
    /// The grouping sequence holds positive sizes only.
    pub open spec fn wf(&self) -> bool {
        all_positive(self.grouping@)
    }

    pub fn is_valid(&self) -> (valid: bool)
        ensures
            valid == self.wf(),
    {
        let mut i: usize = 0;
        while i < self.grouping.len()
            invariant
                i <= self.grouping.len(),
                all_positive(self.grouping@.take(i as int)),
            decreases self.grouping.len() - i,
        {
            if self.grouping[i] == 0 {
                return false;
            }
            assert(self.grouping@.take(i + 1) == self.grouping@.take(i as int).push(
                self.grouping@[i as int],
            ));
            i = i + 1;
        }
        assert(self.grouping@.take(i as int) == self.grouping@);
        true
    }
}

impl DataFormat {
    /// The calendar and the grouping sequence are well formed.
    pub open spec fn wf(&self) -> bool {
        &&& self.LC_TIME.wf()
        &&& self.LC_NUMERIC.wf()
    }

    pub fn is_valid(&self) -> (valid: bool)
        ensures
            valid == self.wf(),
    {
        self.LC_TIME.is_valid() && self.LC_NUMERIC.is_valid()
    }
}

} // verus!
