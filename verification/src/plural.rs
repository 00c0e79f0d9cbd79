//! Plural rules: an expression in the count `n` whose value selects a
//! plural form.
//!
//! A rule is a chain of alternatives joined by `||`; each alternative is
//! a chain of conditions joined by `&&`; a condition is one arithmetic
//! expression or two of them with `==`, `!=`, `<`, `<=`, `>` or `>=`
//! between. The arithmetic is evaluated by the `meval` crate.
//!
//! `meval` computes in double precision. Sums, differences, products,
//! quotients and remainders of decimal numbers come out the same
//! everywhere, so for rules made of those the selected index is stated
//! exactly. Powers and the named functions are evaluated too, but their
//! last digits may differ from one machine to the next; of rules that
//! use them only what holds of every result is stated.

use vstd::prelude::*;
use crate::binary64::{whole_part, whole_part_of};
use crate::decimal::{decimal, lemma_decimal_is_digits, push_decimal};
use crate::text::{chars_of, push_char, sub_chars, text_of};

verus! {

/// The six comparisons of a condition.
#[derive(Debug, Clone, Copy, PartialEq, Eq, Structural)]
pub enum Relation {
    Equal,
    NotEqual,
    Less,
    LessOrEqual,
    Greater,
    GreaterOrEqual,
}

/// For a text of exact arithmetic: the bit pattern of a double with the
/// whole part of what `meval::eval_str` gives for `expr`, or `None`
/// where it gives an error. Of other texts the name says nothing.
pub uninterp spec fn arithmetic_bits(expr: Seq<char>) -> Option<u64>;

/// `c` is one of the letters `a` to `z` and `A` to `Z`.
pub open spec fn is_letter(c: char) -> bool {
    ('a' <= c <= 'z') || ('A' <= c <= 'Z')
}

/// `expr` holds no `^` and no letter, so it can ask for nothing but
/// decimal numbers without exponent, `+`, `-`, `*`, `/`, `%`,
/// parentheses and commas: what is evaluated, if anything, is fixed by
/// the rules of double-precision arithmetic.
pub open spec fn exact_arithmetic(expr: Seq<char>) -> bool {
    forall|i: int| 0 <= i < expr.len() ==> #[trigger] expr[i] != '^' && !is_letter(expr[i])
}

/// `c` is a space, a tab, a carriage return or a line feed.
pub open spec fn is_blank(c: char) -> bool {
    c == ' ' || c == '\t' || c == '\r' || c == '\n'
}

/// `text` holds nothing but blanks; the empty text does.
pub open spec fn all_blank(text: Seq<char>) -> bool {
    forall|i: int| 0 <= i < text.len() ==> is_blank(text[i])
}

/// Evaluates `expr` by `meval::eval_str` and hands back the bits of the
/// double that comes out.
///
/// Trusted: the body is not verified. For a text without `^` and
/// without letters the evaluator can only parse decimal numbers and
/// add, subtract, multiply, divide and take remainders, which gives the
/// same double everywhere but for the bits of a result that is no
/// number; the contract says that whether there is a result, and its
/// whole part, are the named ones. Of a text with a power, a function
/// or a constant it claims nothing: their results are not fixed to the
/// last bit. The tokenizer stops the program on a text that is not
/// empty and holds blanks only; `requires` leaves such texts out, and
/// the empty text with them.
#[verifier::external_body]
fn evaluate_arithmetic(expr: &str) -> (bits: Option<u64>)
    requires
        !all_blank(expr@),
    ensures
        exact_arithmetic(expr@) ==> match (bits, arithmetic_bits(expr@)) {
            (Some(b), Some(n)) => whole_part(b) == whole_part(n),
            (None, None) => true,
            _ => false,
        },
{
    match meval::eval_str(expr) {
        Ok(value) => Some(value.to_bits()),
        Err(_) => None,
    }
}

/// The value of a text of exact arithmetic as a whole number: `None`
/// where the text is blank, where the evaluator gives an error, and
/// where the result is not finite.
pub open spec fn leaf_value(text: Seq<char>) -> Option<nat> {
    if all_blank(text) {
        None
    } else {
        match arithmetic_bits(text) {
            Some(bits) => whole_part(bits),
            None => None,
        }
    }
}

/// Whether `relation` holds between `left` and `right`.
pub open spec fn holds(relation: Relation, left: nat, right: nat) -> bool {
    match relation {
        Relation::Equal => left == right,
        Relation::NotEqual => left != right,
        Relation::Less => left < right,
        Relation::LessOrEqual => left <= right,
        Relation::Greater => left > right,
        Relation::GreaterOrEqual => left >= right,
    }
}

/// One for true, zero for false.
pub open spec fn truth(b: bool) -> nat {
    if b {
        1
    } else {
        0
    }
}

/// The value of a comparison: one where it holds, zero where it does
/// not, `None` where a side has no value.
pub open spec fn related(relation: Relation, left: Option<nat>, right: Option<nat>) -> Option<nat> {
    match (left, right) {
        (Some(x), Some(y)) => Some(truth(holds(relation, x, y))),
        _ => None,
    }
}

/// The value of `left && right`: `None` where a side has no value.
pub open spec fn both(left: Option<nat>, right: Option<nat>) -> Option<nat> {
    match (left, right) {
        (Some(x), Some(y)) => Some(truth(x != 0 && y != 0)),
        _ => None,
    }
}

/// The value of `left || right`: `None` where a side has no value.
pub open spec fn either(left: Option<nat>, right: Option<nat>) -> Option<nat> {
    match (left, right) {
        (Some(x), Some(y)) => Some(truth(x != 0 || y != 0)),
        _ => None,
    }
}

/// The comparison operator that starts at `i` in `text`, with its
/// width. The two-character operators come before `<` and `>`.
pub open spec fn relation_at(text: Seq<char>, i: int) -> Option<(Relation, int)> {
    if !(0 <= i < text.len()) {
        None
    } else if i + 1 < text.len() && text[i + 1] == '=' && text[i] == '=' {
        Some((Relation::Equal, 2))
    } else if i + 1 < text.len() && text[i + 1] == '=' && text[i] == '!' {
        Some((Relation::NotEqual, 2))
    } else if i + 1 < text.len() && text[i + 1] == '=' && text[i] == '<' {
        Some((Relation::LessOrEqual, 2))
    } else if i + 1 < text.len() && text[i + 1] == '=' && text[i] == '>' {
        Some((Relation::GreaterOrEqual, 2))
    } else if text[i] == '<' {
        Some((Relation::Less, 1))
    } else if text[i] == '>' {
        Some((Relation::Greater, 1))
    } else {
        None
    }
}

/// The first place at or after `from` where a comparison operator
/// starts.
pub open spec fn first_relation_from(text: Seq<char>, from: int) -> Option<int>
    decreases text.len() - from,
{
    if from < 0 || from >= text.len() {
        None
    } else if relation_at(text, from) is Some {
        Some(from)
    } else {
        first_relation_from(text, from + 1)
    }
}

/// The first place at or after `from` where `a` is followed by `b`.
pub open spec fn first_pair_from(text: Seq<char>, a: char, b: char, from: int) -> Option<int>
    decreases text.len() - from,
{
    if from < 0 || from + 1 >= text.len() {
        None
    } else if text[from] == a && text[from + 1] == b {
        Some(from)
    } else {
        first_pair_from(text, a, b, from + 1)
    }
}

/// The value of a condition: a comparison at its first operator, or an
/// arithmetic expression where it has none.
pub open spec fn condition_value(text: Seq<char>) -> Option<nat> {
    match first_relation_from(text, 0) {
        Some(i) => match relation_at(text, i) {
            Some((relation, width)) => related(
                relation,
                leaf_value(text.take(i)),
                leaf_value(text.skip(i + width)),
            ),
            None => None,
        },
        None => leaf_value(text),
    }
}

/// The value of a chain of conditions joined by `&&`.
pub open spec fn conjunction_value(text: Seq<char>) -> Option<nat>
    decreases text.len(),
{
    match first_pair_from(text, '&', '&', 0) {
        Some(i) => if 0 <= i && i + 2 <= text.len() {
            both(condition_value(text.take(i)), conjunction_value(text.skip(i + 2)))
        } else {
            None
        },
        None => condition_value(text),
    }
}

/// The value of a rule: a chain of alternatives joined by `||`.
pub open spec fn rule_value(text: Seq<char>) -> Option<nat>
    decreases text.len(),
{
    match first_pair_from(text, '|', '|', 0) {
        Some(i) => if 0 <= i && i + 2 <= text.len() {
            either(conjunction_value(text.take(i)), rule_value(text.skip(i + 2)))
        } else {
            None
        },
        None => conjunction_value(text),
    }
}

/// `rule` with the decimal notation of `count` in place of every `n`.
pub open spec fn substituted(rule: Seq<char>, count: nat) -> Seq<char>
    decreases rule.len(),
{
    if rule.len() == 0 {
        rule
    } else if rule.last() == 'n' {
        substituted(rule.drop_last(), count) + decimal(count)
    } else {
        substituted(rule.drop_last(), count).push(rule.last())
    }
}

/// `rule` holds no `^` and no letter but `n`: with a count put in it is
/// exact arithmetic between its operators.
pub open spec fn exact_rule(rule: Seq<char>) -> bool {
    forall|i: int|
        0 <= i < rule.len() ==> #[trigger] rule[i] != '^' && (is_letter(rule[i]) ==> rule[i]
            == 'n')
}

/// `text` has a connective or a comparison, so its value, where it has
/// one, is a truth value.
pub open spec fn is_compound(text: Seq<char>) -> bool {
    ||| first_pair_from(text, '|', '|', 0) is Some
    ||| first_pair_from(text, '&', '&', 0) is Some
    ||| first_relation_from(text, 0) is Some
}

/// There is no value, or it is zero or one.
pub open spec fn at_most_one(value: Option<u64>) -> bool {
    match value {
        Some(n) => n <= 1,
        None => true,
    }
}

/// `n` as a `usize`, the largest `usize` where `n` does not fit.
pub open spec fn as_index(n: nat) -> usize {
    if n > usize::MAX {
        usize::MAX
    } else {
        n as usize
    }
}

/// The index that `rule` selects for `count`: the value of the rule with
/// the count put in, and zero where the rule has no value.
pub open spec fn form_index(rule: Seq<char>, count: nat) -> usize {
    match rule_value(substituted(rule, count)) {
        Some(n) => as_index(n),
        None => 0,
    }
}

/// Whether `c` is a space, a tab, a carriage return or a line feed.
pub fn is_blank_char(c: char) -> (blank: bool)
    ensures
        blank == is_blank(c),
{
    c == ' ' || c == '\t' || c == '\r' || c == '\n'
}

/// Whether `text` holds nothing but blanks.
pub fn is_all_blank(text: &Vec<char>) -> (blank: bool)
    ensures
        blank == all_blank(text@),
{
    let mut i: usize = 0;
    while i < text.len()
        invariant
            i <= text.len(),
            forall|j: int| 0 <= j < i ==> is_blank(text@[j]),
        decreases text.len() - i,
    {
        if !is_blank_char(text[i]) {
            return false;
        }
        i = i + 1;
    }
    true
}

/// The whole number that an outcome of the arithmetic stands for:
/// `None` for an error and for a result that is not finite.
pub fn whole_of(outcome: Option<u64>) -> (value: Option<u64>)
    ensures
        match outcome {
            Some(bits) => match value {
                Some(n) => whole_part(bits) == Some(n as nat),
                None => whole_part(bits) is None,
            },
            None => value is None,
        },
{
    match outcome {
        Some(bits) => whole_part_of(bits),
        None => None,
    }
}

/// What a value in the library's own numbers says of a value of the
/// rule grammar.
pub open spec fn stands_for(value: Option<u64>, meant: Option<nat>) -> bool {
    match value {
        Some(n) => meant == Some(n as nat),
        None => meant is None,
    }
}

/// A part of a text of exact arithmetic is one.
pub proof fn lemma_exact_part(text: Seq<char>, from: int, to: int)
    requires
        0 <= from <= to <= text.len(),
        exact_arithmetic(text),
    ensures
        exact_arithmetic(text.subrange(from, to)),
{
    let part = text.subrange(from, to);
    assert forall|i: int| 0 <= i < part.len() implies #[trigger] part[i] != '^' && !is_letter(
        part[i],
    ) by {
        assert(part[i] == text[from + i]);
    }
}

/// The value of the arithmetic expression `text`: the named one where
/// the text is exact arithmetic, none where it is blank.
pub fn evaluate_leaf(text: &Vec<char>) -> (value: Option<u64>)
    ensures
        exact_arithmetic(text@) ==> stands_for(value, leaf_value(text@)),
        all_blank(text@) ==> value is None,
{
    if is_all_blank(text) {
        None
    } else {
        let expr = text_of(text);
        whole_of(evaluate_arithmetic(expr.as_str()))
    }
}

/// Whether `relation` holds between `left` and `right`.
pub fn test_relation(relation: Relation, left: u64, right: u64) -> (answer: bool)
    ensures
        answer == holds(relation, left as nat, right as nat),
{
    match relation {
        Relation::Equal => left == right,
        Relation::NotEqual => left != right,
        Relation::Less => left < right,
        Relation::LessOrEqual => left <= right,
        Relation::Greater => left > right,
        Relation::GreaterOrEqual => left >= right,
    }
}

/// The comparison operator that starts at `i`, with its width.
pub fn read_relation(text: &Vec<char>, i: usize) -> (found: Option<(Relation, usize)>)
    ensures
        match found {
            Some((relation, width)) => relation_at(text@, i as int) == Some(
                (relation, width as int),
            ) && 1 <= width <= 2 && i + width <= text.len(),
            None => relation_at(text@, i as int) is None,
        },
{
    if i >= text.len() {
        return None;
    }
    let c = text[i];
    if i + 1 < text.len() && text[i + 1] == '=' {
        if c == '=' {
            return Some((Relation::Equal, 2));
        } else if c == '!' {
            return Some((Relation::NotEqual, 2));
        } else if c == '<' {
            return Some((Relation::LessOrEqual, 2));
        } else if c == '>' {
            return Some((Relation::GreaterOrEqual, 2));
        }
    }
    if c == '<' {
        Some((Relation::Less, 1))
    } else if c == '>' {
        Some((Relation::Greater, 1))
    } else {
        None
    }
}

/// The first place at or after `from` where `a` is followed by `b`.
pub fn find_pair(text: &Vec<char>, from: usize, a: char, b: char) -> (found: Option<usize>)
    ensures
        match found {
            Some(i) => first_pair_from(text@, a, b, from as int) == Some(i as int) && from <= i
                && i + 2 <= text.len() && text@[i as int] == a && text@[i + 1] == b,
            None => first_pair_from(text@, a, b, from as int) is None,
        },
{
    if text.len() < 2 {
        return None;
    }
    let last: usize = text.len() - 1;
    let mut i: usize = from;
    while i < last
        invariant
            from <= i,
            last + 1 == text.len(),
            first_pair_from(text@, a, b, from as int) == first_pair_from(text@, a, b, i as int),
        decreases last - i,
    {
        if text[i] == a && text[i + 1] == b {
            return Some(i);
        }
        i = i + 1;
    }
    None
}

/// Looking for a pair in what follows `start` is looking for it in the
/// whole text from `start` on.
pub proof fn lemma_first_pair_skip(text: Seq<char>, a: char, b: char, start: int, k: int)
    requires
        0 <= start <= text.len(),
        0 <= k,
    ensures
        first_pair_from(text.skip(start), a, b, k) == match first_pair_from(text, a, b, start + k) {
            Some(i) => Some(i - start),
            None => None,
        },
    decreases text.len() - start - k,
{
    let rest = text.skip(start);
    if k + 1 < rest.len() {
        assert(rest[k] == text[start + k]);
        assert(rest[k + 1] == text[start + k + 1]);
        if !(rest[k] == a && rest[k + 1] == b) {
            lemma_first_pair_skip(text, a, b, start, k + 1);
        }
    }
}

/// One more alternative joins those to the left.
pub proof fn lemma_either_gathers(
    seen: bool,
    defined: bool,
    any: bool,
    next: Option<nat>,
    rest: Option<nat>,
)
    requires
        !seen ==> defined && !any,
    ensures
        either(
            gathered(defined && next is Some, any || (next is Some && next->0 != 0)),
            rest,
        ) == if seen {
            either(gathered(defined, any), either(next, rest))
        } else {
            either(next, rest)
        },
{
}

/// One more condition joins those to the left.
pub proof fn lemma_both_gathers(
    seen: bool,
    defined: bool,
    all: bool,
    next: Option<nat>,
    rest: Option<nat>,
)
    requires
        !seen ==> defined && all,
    ensures
        both(
            gathered(defined && next is Some, all && next is Some && next->0 != 0),
            rest,
        ) == if seen {
            both(gathered(defined, all), both(next, rest))
        } else {
            both(next, rest)
        },
{
}

/// What the alternatives or conditions to the left amount to: no value
/// where one of them has none, otherwise whether one of them (for
/// alternatives) or each of them (for conditions) is not zero.
pub open spec fn gathered(defined: bool, verdict: bool) -> Option<nat> {
    if defined {
        Some(truth(verdict))
    } else {
        None
    }
}

/// The value of a condition.
///
/// For a text of exact arithmetic it is the value the grammar gives.
/// Whatever the arithmetic gives, a condition with a comparison has no
/// value or is zero or one, and a blank one has no value.
pub fn evaluate_condition(text: &Vec<char>) -> (value: Option<u64>)
    ensures
        exact_arithmetic(text@) ==> stands_for(value, condition_value(text@)),
        first_relation_from(text@, 0) is Some ==> at_most_one(value),
        all_blank(text@) ==> value is None,
{
    let mut i: usize = 0;
    while i < text.len()
        invariant
            i <= text.len(),
            first_relation_from(text@, 0) == first_relation_from(text@, i as int),
        decreases text.len() - i,
    {
        match read_relation(text, i) {
            Some((relation, width)) => {
                let left = evaluate_leaf(&sub_chars(text, 0, i));
                let right = evaluate_leaf(&sub_chars(text, i + width, text.len()));
                proof {
                    assert(text@.subrange(0, i as int) == text@.take(i as int));
                    assert(text@.subrange(i + width, text.len() as int) == text@.skip(i + width));
                    assert(!is_blank(text@[i as int]));
                    if exact_arithmetic(text@) {
                        lemma_exact_part(text@, 0, i as int);
                        lemma_exact_part(text@, i + width, text.len() as int);
                    }
                }
                return match (left, right) {
                    (Some(x), Some(y)) => Some(
                        if test_relation(relation, x, y) {
                            1
                        } else {
                            0
                        },
                    ),
                    _ => None,
                };
            },
            None => {},
        }
        i = i + 1;
    }
    evaluate_leaf(text)
}

/// The value of a chain of conditions joined by `&&`.
///
/// For a text of exact arithmetic it is the value the grammar gives.
/// Whatever the arithmetic gives, a chain with `&&` or a comparison has
/// no value or is zero or one, and a blank one has no value.
pub fn evaluate_conjunction(text: &Vec<char>) -> (value: Option<u64>)
    ensures
        exact_arithmetic(text@) ==> stands_for(value, conjunction_value(text@)),
        first_pair_from(text@, '&', '&', 0) is Some || first_relation_from(text@, 0) is Some
            ==> at_most_one(value),
        all_blank(text@) ==> value is None,
{
    let mut start: usize = 0;
    let mut seen: bool = false;
    let mut defined: bool = true;
    let mut all: bool = true;
    assert(text@.skip(0) == text@);
    loop
        invariant
            start <= text.len(),
            !seen ==> start == 0 && defined && all,
            seen ==> !all_blank(text@),
            exact_arithmetic(text@) ==> conjunction_value(text@) == if seen {
                both(gathered(defined, all), conjunction_value(text@.skip(start as int)))
            } else {
                conjunction_value(text@.skip(start as int))
            },
        decreases text.len() - start,
    {
        let ghost rest = text@.skip(start as int);
        proof {
            lemma_first_pair_skip(text@, '&', '&', start as int, 0);
        }
        match find_pair(text, start, '&', '&') {
            Some(i) => {
                let part = sub_chars(text, start, i);
                let next = evaluate_condition(&part);
                proof {
                    assert(!is_blank(text@[i as int]));
                    assert(part@ == rest.take(i - start));
                    assert(text@.skip(i + 2) == rest.skip(i - start + 2));
                    assert(first_pair_from(rest, '&', '&', 0) == Some(i - start));
                    assert(conjunction_value(rest) == both(
                        condition_value(rest.take(i - start)),
                        conjunction_value(rest.skip(i - start + 2)),
                    ));
                    if exact_arithmetic(text@) {
                        lemma_exact_part(text@, start as int, i as int);
                    }
                    lemma_both_gathers(
                        seen,
                        defined,
                        all,
                        condition_value(part@),
                        conjunction_value(text@.skip(i + 2)),
                    );
                }
                match next {
                    Some(x) => {
                        all = all && x != 0;
                    },
                    None => {
                        defined = false;
                    },
                }
                seen = true;
                start = i + 2;
            },
            None => {
                let part = sub_chars(text, start, text.len());
                proof {
                    assert(part@ == rest);
                    if !seen {
                        assert(rest == text@);
                    }
                    if exact_arithmetic(text@) {
                        lemma_exact_part(text@, start as int, text.len() as int);
                    }
                }
                let last = evaluate_condition(&part);
                return if !seen {
                    last
                } else {
                    match last {
                        Some(y) => if defined {
                            Some(
                                if all && y != 0 {
                                    1
                                } else {
                                    0
                                },
                            )
                        } else {
                            None
                        },
                        None => None,
                    }
                };
            },
        }
    }
}

/// The value of a rule in which the count has been put in.
///
/// For a text of exact arithmetic it is the value the grammar gives.
/// Whatever the arithmetic gives, a rule with a connective or a
/// comparison has no value or is zero or one, and a blank rule has no
/// value.
pub fn evaluate_rule(text: &Vec<char>) -> (value: Option<u64>)
    ensures
        exact_arithmetic(text@) ==> stands_for(value, rule_value(text@)),
        is_compound(text@) ==> at_most_one(value),
        all_blank(text@) ==> value is None,
{
    let mut start: usize = 0;
    let mut seen: bool = false;
    let mut defined: bool = true;
    let mut any: bool = false;
    assert(text@.skip(0) == text@);
    loop
        invariant
            start <= text.len(),
            !seen ==> start == 0 && defined && !any,
            seen ==> !all_blank(text@),
            exact_arithmetic(text@) ==> rule_value(text@) == if seen {
                either(gathered(defined, any), rule_value(text@.skip(start as int)))
            } else {
                rule_value(text@.skip(start as int))
            },
        decreases text.len() - start,
    {
        let ghost rest = text@.skip(start as int);
        proof {
            lemma_first_pair_skip(text@, '|', '|', start as int, 0);
        }
        match find_pair(text, start, '|', '|') {
            Some(i) => {
                let part = sub_chars(text, start, i);
                let next = evaluate_conjunction(&part);
                proof {
                    assert(!is_blank(text@[i as int]));
                    assert(part@ == rest.take(i - start));
                    assert(text@.skip(i + 2) == rest.skip(i - start + 2));
                    assert(first_pair_from(rest, '|', '|', 0) == Some(i - start));
                    assert(rule_value(rest) == either(
                        conjunction_value(rest.take(i - start)),
                        rule_value(rest.skip(i - start + 2)),
                    ));
                    if exact_arithmetic(text@) {
                        lemma_exact_part(text@, start as int, i as int);
                    }
                    lemma_either_gathers(
                        seen,
                        defined,
                        any,
                        conjunction_value(part@),
                        rule_value(text@.skip(i + 2)),
                    );
                }
                match next {
                    Some(x) => {
                        any = any || x != 0;
                    },
                    None => {
                        defined = false;
                    },
                }
                seen = true;
                start = i + 2;
            },
            None => {
                let part = sub_chars(text, start, text.len());
                proof {
                    assert(part@ == rest);
                    if !seen {
                        assert(rest == text@);
                    }
                    if exact_arithmetic(text@) {
                        lemma_exact_part(text@, start as int, text.len() as int);
                    }
                }
                let last = evaluate_conjunction(&part);
                return if !seen {
                    last
                } else {
                    match last {
                        Some(y) => if defined {
                            Some(
                                if any || y != 0 {
                                    1
                                } else {
                                    0
                                },
                            )
                        } else {
                            None
                        },
                        None => None,
                    }
                };
            },
        }
    }
}

/// `rule` with the decimal notation of `count` in place of every `n`.
pub fn substitute(rule: &str, count: u32) -> (text: String)
    ensures
        text@ == substituted(rule@, count as nat),
{
    let chars = chars_of(rule);
    let mut text = String::new();
    let mut i: usize = 0;
    while i < chars.len()
        invariant
            i <= chars.len(),
            chars@ == rule@,
            text@ == substituted(chars@.take(i as int), count as nat),
        decreases chars.len() - i,
    {
        assert(chars@.take(i + 1).drop_last() == chars@.take(i as int));
        if chars[i] == 'n' {
            push_decimal(&mut text, count as u64);
        } else {
            push_char(&mut text, chars[i]);
        }
        i = i + 1;
    }
    assert(chars@.take(i as int) == chars@);
    text
}

/// With a count put in, a rule without `^` and without letters other
/// than `n` is a text of exact arithmetic.
pub proof fn lemma_exact_rule_with_count(rule: Seq<char>, count: nat)
    requires
        exact_rule(rule),
    ensures
        exact_arithmetic(substituted(rule, count)),
    decreases rule.len(),
{
    if rule.len() > 0 {
        let front = rule.drop_last();
        assert forall|i: int| 0 <= i < front.len() implies #[trigger] front[i] != '^' && (is_letter(
            front[i],
        ) ==> front[i] == 'n') by {
            assert(front[i] == rule[i]);
        }
        lemma_exact_rule_with_count(front, count);
        lemma_decimal_is_digits(count);
        let head = substituted(front, count);
        let whole = substituted(rule, count);
        let last = rule[rule.len() - 1];
        assert(last != '^' && (is_letter(last) ==> last == 'n'));
        assert forall|i: int| 0 <= i < whole.len() implies #[trigger] whole[i] != '^' && !is_letter(
            whole[i],
        ) by {
            if i < head.len() {
                assert(whole[i] == head[i]);
            } else if rule.last() == 'n' {
                assert(whole[i] == decimal(count)[i - head.len()]);
            } else {
                assert(whole[i] == last);
            }
        }
    }
}

/// The index that the value of a rule selects: the value itself, the
/// largest `usize` where it does not fit, and zero where there is none.
pub fn index_of(value: Option<u64>) -> (index: usize)
    ensures
        index == match value {
            Some(n) => as_index(n as nat),
            None => 0usize,
        },
{
    match value {
        Some(n) => if n > usize::MAX as u64 {
            usize::MAX
        } else {
            n as usize
        },
        None => 0,
    }
}

/// A plural rule bound to its locale.
#[derive(Debug, Clone)]
pub struct PluralEvaluator {
    /// The rule, an expression in the count `n`.
    pub rule: String,
}

impl PluralEvaluator {
    /// The evaluator of `rule`.
    pub fn new(rule: &str) -> (evaluator: PluralEvaluator)
        ensures
            evaluator.rule@ == rule@,
    {
        PluralEvaluator { rule: String::from_str(rule) }
    }

    /// The index of the plural form for `count`.
    ///
    /// The count is put in for every `n` of the rule and the rule is
    /// evaluated. Where it has no value (the text is malformed, a
    /// result is not finite) the index is zero.
    ///
    /// For a rule without `^` and without letters other than `n` the
    /// index is the one the grammar gives. Whatever the arithmetic
    /// gives, a rule with a connective or a comparison selects index
    /// zero or one, and a rule that is blank selects index zero.
    pub fn select_form(&self, count: u32) -> (index: usize)
        ensures
            exact_rule(self.rule@) ==> index == form_index(self.rule@, count as nat),
            is_compound(substituted(self.rule@, count as nat)) ==> index <= 1,
            all_blank(substituted(self.rule@, count as nat)) ==> index == 0,
    {
        let text = substitute(self.rule.as_str(), count);
        let chars = chars_of(text.as_str());
        proof {
            if exact_rule(self.rule@) {
                lemma_exact_rule_with_count(self.rule@, count as nat);
            }
        }
        index_of(evaluate_rule(&chars))
    }
}

} // verus!
