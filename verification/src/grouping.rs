//! Digit grouping: where the thousands separators go.

use vstd::prelude::*;
use crate::text::{chars_of, push_range};

verus! {

/// The cursor that follows `cursor` in `sizes`: the next entry, or the
/// same one again once the sequence is used up.
pub open spec fn next_cursor(sizes: Seq<u8>, cursor: int) -> int {
    if cursor + 1 < sizes.len() {
        cursor + 1
    } else {
        cursor
    }
}

/// `digits` with `separator` between groups, the group sizes read from
/// `sizes` starting at `cursor` and counted from the right.
///
/// The rightmost `sizes[cursor]` digits form a group; what is left of
/// them is grouped with the following cursor. Digits that fill no more
/// than one group stay together, and so do all digits when the cursor
/// points outside `sizes` or at a zero.
pub open spec fn grouped_from(
    digits: Seq<char>,
    sizes: Seq<u8>,
    cursor: int,
    separator: Seq<char>,
) -> Seq<char>
    decreases digits.len(),
{
    if 0 <= cursor < sizes.len() && 0 < sizes[cursor] < digits.len() {
        let cut = digits.len() - sizes[cursor];
        grouped_from(digits.take(cut), sizes, next_cursor(sizes, cursor), separator) + separator
            + digits.skip(cut)
    } else {
        digits
    }
}

/// `digits` grouped from the right by `sizes`, starting with its first
/// entry. An empty `sizes` leaves the digits as they are.
pub open spec fn grouped(digits: Seq<char>, sizes: Seq<u8>, separator: Seq<char>) -> Seq<char> {
    grouped_from(digits, sizes, 0, separator)
}

/// The upper end of the group that begins at `cuts[k]`: the cut made
/// just before it, or `end` for the first cut.
pub open spec fn group_end(cuts: Seq<usize>, k: int, end: int) -> int {
    if k == 0 {
        end
    } else {
        cuts[k - 1] as int
    }
}

/// `cuts` are places up to `end`, none above the one before.
pub open spec fn descending(cuts: Seq<usize>, end: int) -> bool {
    forall|k: int|
        0 <= k < cuts.len() ==> #[trigger] cuts[k] <= group_end(cuts, k, end) && group_end(
            cuts,
            k,
            end,
        ) <= end
}

/// The groups that `cuts` split off the right end of `digits[..end]`,
/// each with the separator in front, leftmost group first. The cuts are
/// listed from the right: `cuts[0]` begins the rightmost group.
pub open spec fn split_off(digits: Seq<char>, cuts: Seq<usize>, end: int, separator: Seq<char>) -> Seq<
    char,
>
    decreases cuts.len(),
{
    if cuts.len() == 0 {
        Seq::empty()
    } else {
        let k = cuts.len() - 1;
        separator + digits.subrange(cuts[k] as int, group_end(cuts, k, end)) + split_off(
            digits,
            cuts.drop_last(),
            end,
            separator,
        )
    }
}

/// Cutting one more group off the digits that are left moves it from
/// the grouped head to the groups that are split off.
proof fn lemma_cut_group(
    digits: Seq<char>,
    cuts: Seq<usize>,
    end: int,
    head: int,
    cut: usize,
    sizes: Seq<u8>,
    cursor: int,
    separator: Seq<char>,
)
    requires
        0 < cut < head <= end <= digits.len(),
        0 <= cursor < sizes.len(),
        sizes[cursor] == head - cut,
        head == group_end(cuts, cuts.len() as int, end),
        descending(cuts, end),
    ensures
        grouped_from(digits.take(head), sizes, cursor, separator) + split_off(
            digits,
            cuts,
            end,
            separator,
        ) == grouped_from(digits.take(cut as int), sizes, next_cursor(sizes, cursor), separator)
            + split_off(digits, cuts.push(cut), end, separator),
        descending(cuts.push(cut), end),
        cut == group_end(cuts.push(cut), cuts.len() as int + 1, end),
{
    let kept = digits.take(head);
    let longer = cuts.push(cut);
    assert(kept.take(cut as int) == digits.take(cut as int));
    assert(kept.skip(cut as int) == digits.subrange(cut as int, head));
    assert(longer.drop_last() == cuts);
    assert(group_end(longer, cuts.len() as int, end) == head);
    let front = grouped_from(digits.take(cut as int), sizes, next_cursor(sizes, cursor), separator);
    let group = digits.subrange(cut as int, head);
    let rest = split_off(digits, cuts, end, separator);
    assert(grouped_from(kept, sizes, cursor, separator) == front + separator + group);
    assert(split_off(digits, longer, end, separator) == separator + group + rest);
    assert((front + separator + group) + rest =~= front + (separator + group + rest));
    assert forall|k: int| 0 <= k < longer.len() implies #[trigger] longer[k] <= group_end(
        longer,
        k,
        end,
    ) && group_end(longer, k, end) <= end by {
        if k < cuts.len() {
            assert(longer[k] == cuts[k]);
            assert(group_end(longer, k, end) == group_end(cuts, k, end));
        }
    }
}

/// Appends `digits[..end]`, grouped by `sizes` from its first entry on,
/// to `text`.
pub fn push_grouped(
    text: &mut String,
    digits: &Vec<char>,
    end: usize,
    sizes: &Vec<u8>,
    separator: &str,
)
    requires
        end <= digits.len(),
    ensures
        final(text)@ == old(text)@ + grouped(digits@.take(end as int), sizes@, separator@),
{
    // First the places where the separators go, from the right.
    let mut cuts: Vec<usize> = Vec::new();
    let mut head: usize = end;
    let mut cursor: usize = 0;
    while cursor < sizes.len() && 0 < sizes[cursor] && (sizes[cursor] as usize) < head
        invariant
            head <= end <= digits.len(),
            descending(cuts@, end as int),
            head == group_end(cuts@, cuts@.len() as int, end as int),
            grouped(digits@.take(end as int), sizes@, separator@) == grouped_from(
                digits@.take(head as int),
                sizes@,
                cursor as int,
                separator@,
            ) + split_off(digits@, cuts@, end as int, separator@),
        decreases head,
    {
        let cut: usize = head - sizes[cursor] as usize;
        proof {
            lemma_cut_group(
                digits@,
                cuts@,
                end as int,
                head as int,
                cut,
                sizes@,
                cursor as int,
                separator@,
            );
        }
        cuts.push(cut);
        head = cut;
        cursor = if cursor + 1 < sizes.len() {
            cursor + 1
        } else {
            cursor
        };
    }
    // Then the leftmost group, and the others with the separator in front.
    assert(digits@.take(head as int) == digits@.subrange(0, head as int));
    assert(grouped_from(digits@.take(head as int), sizes@, cursor as int, separator@)
        == digits@.take(head as int));
    assert(cuts@.take(cuts@.len() as int) == cuts@);
    push_range(text, digits, 0, head);
    let mut k: usize = cuts.len();
    while k > 0
        invariant
            k <= cuts.len(),
            end <= digits.len(),
            descending(cuts@, end as int),
            text@ + split_off(digits@, cuts@.take(k as int), end as int, separator@) == old(text)@
                + grouped(digits@.take(end as int), sizes@, separator@),
        decreases k,
    {
        let ghost left = cuts@.take(k as int);
        k = k - 1;
        let from: usize = cuts[k];
        let to: usize = if k == 0 {
            end
        } else {
            cuts[k - 1]
        };
        let ghost before = text@;
        proof {
            assert(left.drop_last() == cuts@.take(k as int));
            assert(left[k as int] == cuts@[k as int]);
            assert(group_end(left, k as int, end as int) == to);
            assert(cuts@[k as int] <= group_end(cuts@, k as int, end as int) <= end);
            assert(group_end(cuts@, k as int, end as int) == to);
        }
        text.append(separator);
        push_range(text, digits, from, to);
        proof {
            let group = digits@.subrange(from as int, to as int);
            let rest = split_off(digits@, cuts@.take(k as int), end as int, separator@);
            assert(split_off(digits@, left, end as int, separator@) == separator@ + group + rest);
            assert(before + (separator@ + group + rest) =~= (before + separator@ + group) + rest);
        }
    }
    assert(cuts@.take(0) == Seq::<usize>::empty());
}

/// Writes the digits of an integer with a separator between groups.
///
/// `digits` are in natural order, most significant first. `grouping`
/// gives the group sizes from the least significant digit outward, its
/// last entry repeating; no separator is written in front of the
/// leftmost group.
pub fn group_integer(digits: &str, grouping: &Vec<u8>, separator: &str) -> (text: String)
    ensures
        text@ == grouped(digits@, grouping@, separator@),
{
    let chars = chars_of(digits);
    let mut text = String::new();
    assert(chars@.take(chars.len() as int) == chars@);
    push_grouped(&mut text, &chars, chars.len(), grouping, separator);
    text
}

/// Grouping puts separators between digits and does nothing else: with
/// an empty separator the digits come back as they were.
pub proof fn lemma_grouped_without_separator(digits: Seq<char>, sizes: Seq<u8>, cursor: int)
    ensures
        grouped_from(digits, sizes, cursor, Seq::empty()) == digits,
    decreases digits.len(),
{
    if 0 <= cursor < sizes.len() && 0 < sizes[cursor] < digits.len() {
        let cut = digits.len() - sizes[cursor];
        lemma_grouped_without_separator(digits.take(cut), sizes, next_cursor(sizes, cursor));
        assert(digits.take(cut) + Seq::<char>::empty() + digits.skip(cut) =~= digits);
    }
}

/// The grouped text begins with a digit and ends with the last group:
/// no separator stands in front of the leftmost group or behind the
/// rightmost, and nothing is lost, so the text is at least as long as
/// the digits.
pub proof fn lemma_grouped_ends(digits: Seq<char>, sizes: Seq<u8>, cursor: int, separator: Seq<char>)
    requires
        digits.len() > 0,
    ensures
        grouped_from(digits, sizes, cursor, separator).len() >= digits.len(),
        grouped_from(digits, sizes, cursor, separator).first() == digits.first(),
        grouped_from(digits, sizes, cursor, separator).last() == digits.last(),
    decreases digits.len(),
{
    if 0 <= cursor < sizes.len() && 0 < sizes[cursor] < digits.len() {
        let cut = digits.len() - sizes[cursor];
        lemma_grouped_ends(digits.take(cut), sizes, next_cursor(sizes, cursor), separator);
    }
}

/// The number of separators that go into `count` digits: one for every
/// group that is cut off the right end.
pub open spec fn separators_in(count: nat, sizes: Seq<u8>, cursor: int) -> nat
    decreases count,
{
    if 0 <= cursor < sizes.len() && 0 < sizes[cursor] < count {
        1 + separators_in((count - sizes[cursor]) as nat, sizes, next_cursor(sizes, cursor))
    } else {
        0
    }
}

/// Nothing but separators is added: the text is as long as the digits
/// and one separator for every group that is cut off.
pub proof fn lemma_grouped_len(digits: Seq<char>, sizes: Seq<u8>, cursor: int, separator: Seq<char>)
    ensures
        grouped_from(digits, sizes, cursor, separator).len() == digits.len() + separators_in(
            digits.len(),
            sizes,
            cursor,
        ) * separator.len(),
    decreases digits.len(),
{
    if 0 <= cursor < sizes.len() && 0 < sizes[cursor] < digits.len() {
        let cut = digits.len() - sizes[cursor];
        let next = next_cursor(sizes, cursor);
        lemma_grouped_len(digits.take(cut), sizes, next, separator);
        let fewer = separators_in(cut as nat, sizes, next);
        assert((1 + fewer) * separator.len() == separator.len() + fewer * separator.len())
            by (nonlinear_arith);
    } else {
        assert(0 * separator.len() == 0);
    }
}

/// With one group size every group but the leftmost is full: `count`
/// digits take as many separators as there are full groups behind the
/// first digit.
pub proof fn lemma_separators_of_one_size(count: nat, size: u8)
    requires
        count > 0,
        size > 0,
    ensures
        separators_in(count, seq![size], 0) == (count - 1) / (size as int),
    decreases count,
{
    let sizes = seq![size];
    assert(sizes[0] == size);
    assert(next_cursor(sizes, 0) == 0);
    if size < count {
        lemma_separators_of_one_size((count - size) as nat, size);
        vstd::arithmetic::div_mod::lemma_div_plus_one(count - size - 1, size as int);
        assert(size + (count - size - 1) == count - 1);
    } else {
        vstd::arithmetic::div_mod::lemma_basic_div(count - 1, size as int);
    }
}

/// Without group sizes nothing is inserted.
pub proof fn lemma_grouped_by_nothing(digits: Seq<char>, separator: Seq<char>)
    ensures
        grouped(digits, Seq::empty(), separator) == digits,
{
}

} // verus!
