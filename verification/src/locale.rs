//! One locale: its formatting rules, its string table and its plural
//! rule, with the operations a caller asks of it.

use vstd::prelude::*;
use crate::collate::{collation_order, compare_in, mode_named, mode_of};
use crate::data_format::DataFormat;
use crate::date::{date_text, is_calendar_date, render_date};
use crate::money::{format_amount, money_text};
use crate::numeric::{digits_of, format_number, numeric_text};
use crate::plural::{exact_rule, form_index, PluralEvaluator};
use crate::table::{forms_view, StringTable};

verus! {

/// Why a locale could not be loaded.
#[derive(Debug, Clone, Copy, PartialEq, Eq, Structural)]
pub enum LoadError {
    /// Nothing could be had for the name.
    Unavailable,
    /// The formatting rules do not fit the data model.
    InvalidData,
    /// A key of the string table has no form or stands twice.
    InvalidStrings,
}

/// One loaded locale.
#[derive(Debug, Clone)]
pub struct Locale {
    pub data: DataFormat,
    pub strings: StringTable,
    pub plural_fn: PluralEvaluator,
    pub name: String,
}

/// What is wrong with the parts of a locale, if anything: the
/// formatting rules are looked at first.
pub open spec fn load_failure(data: DataFormat, strings: StringTable) -> Option<LoadError> {
    if !data.wf() {
        Some(LoadError::InvalidData)
    } else if !strings.wf() {
        Some(LoadError::InvalidStrings)
    } else {
        None
    }
}

/// What `strings` gives for `key`: its first form, or the key itself
/// where the table has no form for it.
pub open spec fn translated(strings: StringTable, key: Seq<char>) -> Seq<char> {
    match strings.forms_of(key) {
        Some(forms) => if forms.len() > 0 {
            forms[0]
        } else {
            key
        },
        None => key,
    }
}

/// `text` is one of the forms of `key`, or `key` itself where the table
/// has no form for it.
pub open spec fn key_or_form(strings: StringTable, key: Seq<char>, text: Seq<char>) -> bool {
    match strings.forms_of(key) {
        Some(forms) => if forms.len() == 0 {
            text == key
        } else {
            exists|i: int| 0 <= i < forms.len() && text == #[trigger] forms[i]
        },
        None => text == key,
    }
}

/// The form of `key` at `index`, the last form where the index is past
/// the end, and the key itself where the table has no form for it.
pub open spec fn form_at(strings: StringTable, key: Seq<char>, index: usize) -> Seq<char> {
    match strings.forms_of(key) {
        Some(forms) => if forms.len() == 0 {
            key
        } else if index < forms.len() {
            forms[index as int]
        } else {
            forms[forms.len() - 1]
        },
        None => key,
    }
}

impl Locale {
    /// The parts fit the data model and the plural rule is the one of
    /// the formatting rules.
    pub open spec fn wf(&self) -> bool {
        &&& self.data.wf()
        &&& self.strings.wf()
        &&& self.plural_fn.rule@ == self.data.PLURAL_RULES@
    }

    /// This locale is made of these parts under this name.
    pub open spec fn made_from(&self, name: Seq<char>, data: DataFormat, strings: StringTable) -> bool {
        &&& self.name@ == name
        &&& self.data == data
        &&& self.strings == strings
        &&& self.plural_fn.rule@ == data.PLURAL_RULES@
    }

    /// Makes the locale `name` from its formatting rules and its string
    /// table, and binds the plural rule.
    ///
    /// Fails where the rules or the table do not fit the data model:
    /// seven day names, twelve month names, positive group sizes, and
    /// every key once with at least one form.
    pub fn load(name: &str, data: DataFormat, strings: StringTable) -> (loaded: Result<
        Locale,
        LoadError,
    >)
        ensures
            match loaded {
                Ok(locale) => load_failure(data, strings) is None && locale.made_from(
                    name@,
                    data,
                    strings,
                ) && locale.wf(),
                Err(e) => load_failure(data, strings) == Some(e),
            },
    {
        if !data.is_valid() {
            return Err(LoadError::InvalidData);
        }
        if !strings.is_valid() {
            return Err(LoadError::InvalidStrings);
        }
        let plural_fn = PluralEvaluator::new(data.PLURAL_RULES.as_str());
        Ok(Locale { data, strings, plural_fn, name: String::from_str(name) })
    }

    /// The translation of `key`: its first form, or `key` itself where
    /// the table does not have it.
    pub fn t<'a>(&'a self, key: &'a str) -> (text: &'a str)
        ensures
            text@ == translated(self.strings, key@),
    {
        match self.strings.get(key) {
            Some(forms) => if forms.len() > 0 {
                forms[0].as_str()
            } else {
                key
            },
            None => key,
        }
    }

    /// The form of `key` for the count `n`.
    ///
    /// The plural rule gives an index; an index past the last form
    /// selects the last form. A key that the table does not have, or
    /// has without forms, is handed back as it is.
    ///
    /// Whatever the rule gives, the text is one of the key's forms, or
    /// the key where it has none. For a rule without `^` and without
    /// letters other than `n` it is the form at the index the grammar
    /// gives.
    pub fn plural_word<'a>(&'a self, key: &'a str, n: u32) -> (text: &'a str)
        ensures
            key_or_form(self.strings, key@, text@),
            exact_rule(self.plural_fn.rule@) ==> text@ == form_at(
                self.strings,
                key@,
                form_index(self.plural_fn.rule@, n as nat),
            ),
    {
        match self.strings.get(key) {
            Some(forms) => {
                if forms.len() == 0 {
                    key
                } else {
                    let index = self.plural_fn.select_form(n);
                    let chosen: usize = if index < forms.len() {
                        index
                    } else {
                        forms.len() - 1
                    };
                    assert(forms_view(forms@)[chosen as int] == forms@[chosen as int]@);
                    forms[chosen].as_str()
                }
            },
            None => key,
        }
    }

    /// The date `year`-`month`-`day` written by the locale's pattern.
    ///
    /// Gives `None` where there is no such day in the calendar, and
    /// for a day that exists only where the pattern cannot be applied
    /// to a date.
    pub fn format_date(&self, year: i32, month: u32, day: u32) -> (text: Option<String>)
        ensures
            match text {
                Some(t) => is_calendar_date(year as int, month as int, day as int) && date_text(
                    year as int,
                    month as int,
                    day as int,
                    self.data.LC_TIME.date_fmt@,
                ) == Some(t@),
                None => !is_calendar_date(year as int, month as int, day as int) || date_text(
                    year as int,
                    month as int,
                    day as int,
                    self.data.LC_TIME.date_fmt@,
                ) is None,
            },
    {
        render_date(year, month, day, self.data.LC_TIME.date_fmt.as_str())
    }

    /// An amount of `amount` minor units written by the monetary rules,
    /// its integer part grouped by the numeric grouping sequence.
    pub fn format_money(&self, amount: i64) -> (text: String)
        ensures
            text@ == money_text(
                &self.data.LC_MONETARY,
                self.data.LC_NUMERIC.grouping@,
                amount as int,
            ),
    {
        format_amount(&self.data.LC_MONETARY, &self.data.LC_NUMERIC.grouping, amount)
    }

    /// A number written by the numeric rules: `negative` says whether
    /// it is below zero, `int_part` is the magnitude of its integer
    /// part, and `fraction` holds the digits behind the decimal point
    /// where the fractional part is not zero.
    pub fn format_numeric(&self, negative: bool, int_part: u64, fraction: Option<&str>) -> (text:
        String)
        ensures
            text@ == numeric_text(
                &self.data.LC_NUMERIC,
                negative,
                int_part as nat,
                digits_of(fraction),
            ),
    {
        format_number(&self.data.LC_NUMERIC, negative, int_part, fraction)
    }

    /// Puts `a` and `b` in the order of the locale's collation mode:
    /// -1, 0 or 1.
    pub fn compare(&self, a: &str, b: &str) -> (order: i32)
        ensures
            order == collation_order(mode_of(self.data.LC_COLLATE.sort_order@), a@, b@),
    {
        compare_in(mode_named(self.data.LC_COLLATE.sort_order.as_str()), a, b)
    }
}

/// A key that the table does not have comes back as it is, from the
/// translation and from every plural index.
pub proof fn lemma_missing_key_comes_back(strings: StringTable, key: Seq<char>, index: usize)
    requires
        strings.forms_of(key) is None,
    ensures
        translated(strings, key) == key,
        form_at(strings, key, index) == key,
{
}

/// Whatever the index, the form handed out is one of the key's forms:
/// the one at the index, or the last form where the index is past the
/// end.
pub proof fn lemma_index_is_clamped(strings: StringTable, key: Seq<char>, index: usize)
    requires
        strings.forms_of(key) is Some,
        strings.forms_of(key)->0.len() > 0,
    ensures
        ({
            let forms = strings.forms_of(key)->0;
            let last = forms.len() - 1;
            form_at(strings, key, index) == forms[if index <= last {
                index as int
            } else {
                last
            }]
        }),
{
}

} // verus!
