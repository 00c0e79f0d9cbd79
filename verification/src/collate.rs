//! String collation: a key is derived from each string by the mode's
//! transformations, and the keys are put in lexicographic order.

use vstd::prelude::*;
use vstd::utf8::encode_utf8;
use crate::text::{chars_of, same_text, text_of};

verus! {

/// How strings are transformed before they are put in order.
#[derive(Debug, Clone, Copy, PartialEq, Eq, Structural)]
pub enum CollationMode {
    /// Code point order of the strings as they are.
    Unicode,
    /// Byte order of the UTF-8 encoding.
    Ascii,
    /// Full lowercase mapping first.
    UnicodeCi,
    /// Lowercase `A` to `Z` only.
    AsciiCi,
    /// Canonical decomposition, then non-spacing marks dropped.
    UnicodeBase,
    /// As `UnicodeBase`, then full lowercase mapping.
    UnicodeBaseCi,
    /// White space dropped.
    UnicodeNoSpace,
    /// ASCII punctuation dropped.
    UnicodeNoPunct,
    /// Full lowercase mapping, then white space dropped.
    UnicodeCiNoSpace,
    /// Canonical decomposition, non-spacing marks and white space
    /// dropped, then full lowercase mapping.
    UnicodeCiNoSpaceBase,
}

/// What a pass over a string leaves out.
#[derive(Debug, Clone, Copy, PartialEq, Eq, Structural)]
pub enum Dropped {
    Marks,
    Spaces,
    Punctuation,
    MarksAndSpaces,
}

/// The lowercase form of `text` that `str::to_lowercase` gives.
pub uninterp spec fn lowercase_of(text: Seq<char>) -> Seq<char>;

/// The canonical decomposition (NFD) of `text` that the
/// `unicode-normalization` crate gives.
pub uninterp spec fn canonical_decomposition(text: Seq<char>) -> Seq<char>;

/// Whether the `unicode-general-category` crate puts `c` in the general
/// category Mn, non-spacing mark.
pub uninterp spec fn nonspacing_mark(c: char) -> bool;

/// Whether `char::is_whitespace` holds of `c`.
pub uninterp spec fn white_space(c: char) -> bool;

/// Lowercases `text` by `str::to_lowercase`.
///
/// Trusted: the body is not verified. The mapping follows the Unicode
/// tables of the standard library and depends on nothing but the
/// argument; the contract gives the result its name and claims no more.
#[verifier::external_body]
fn to_lowercase(text: &str) -> (lower: String)
    ensures
        lower@ == lowercase_of(text@),
{
    text.to_lowercase()
}

/// Decomposes `text` by `UnicodeNormalization::nfd` and collects the
/// characters that the iterator yields.
///
/// Trusted: the body is not verified. The decomposition follows the
/// crate's tables and depends on nothing but the argument; the contract
/// gives the result its name and claims no more.
#[verifier::external_body]
fn decompose(text: &str) -> (chars: Vec<char>)
    ensures
        chars@ == canonical_decomposition(text@),
{
    unicode_normalization::UnicodeNormalization::nfd(text).collect()
}

/// Asks `unicode_general_category::get_general_category` whether `c` is
/// a non-spacing mark.
///
/// Trusted: the body is not verified. The category is looked up in the
/// crate's tables; the contract names the answer and claims no more.
#[verifier::external_body]
fn is_nonspacing_mark(c: char) -> (mark: bool)
    ensures
        mark == nonspacing_mark(c),
{
    matches!(
        unicode_general_category::get_general_category(c),
        unicode_general_category::GeneralCategory::NonspacingMark
    )
}

/// Asks `char::is_whitespace` about `c`.
///
/// Trusted: the body is not verified. The answer is the Unicode
/// property White_Space of `c`; the contract names it and claims no more.
#[verifier::external_body]
fn is_whitespace(c: char) -> (space: bool)
    ensures
        space == white_space(c),
{
    c.is_whitespace()
}

/// `c` with `A` to `Z` mapped to `a` to `z`.
pub open spec fn ascii_lower(c: char) -> char {
    if 'A' <= c <= 'Z' {
        ((c as u8) + 32) as char
    } else {
        c
    }
}

/// `c` is one of the ASCII punctuation characters: U+0021 to U+002F,
/// U+003A to U+0040, U+005B to U+0060 or U+007B to U+007E.
pub open spec fn ascii_punctuation(c: char) -> bool {
    let v = c as u32;
    ||| 0x21 <= v <= 0x2F
    ||| 0x3A <= v <= 0x40
    ||| 0x5B <= v <= 0x60
    ||| 0x7B <= v <= 0x7E
}

/// Whether a pass that drops `dropped` leaves `c` out.
pub open spec fn drops(dropped: Dropped, c: char) -> bool {
    match dropped {
        Dropped::Marks => nonspacing_mark(c),
        Dropped::Spaces => white_space(c),
        Dropped::Punctuation => ascii_punctuation(c),
        Dropped::MarksAndSpaces => nonspacing_mark(c) || white_space(c),
    }
}

/// `text` without the characters that `dropped` leaves out, the others
/// in their order.
pub open spec fn retained(dropped: Dropped, text: Seq<char>) -> Seq<char>
    decreases text.len(),
{
    if text.len() == 0 {
        text
    } else {
        let front = retained(dropped, text.drop_last());
        if drops(dropped, text.last()) {
            front
        } else {
            front.push(text.last())
        }
    }
}

/// `text` with every character put through `ascii_lower`.
pub open spec fn ascii_lowercase_of(text: Seq<char>) -> Seq<char> {
    Seq::new(text.len(), |i: int| ascii_lower(text[i]))
}

/// The key by which `mode` orders `text`.
pub open spec fn collation_key(mode: CollationMode, text: Seq<char>) -> Seq<char> {
    match mode {
        CollationMode::Unicode => text,
        CollationMode::Ascii => text,
        CollationMode::UnicodeCi => lowercase_of(text),
        CollationMode::AsciiCi => ascii_lowercase_of(text),
        CollationMode::UnicodeBase => retained(Dropped::Marks, canonical_decomposition(text)),
        CollationMode::UnicodeBaseCi => lowercase_of(
            retained(Dropped::Marks, canonical_decomposition(text)),
        ),
        CollationMode::UnicodeNoSpace => retained(Dropped::Spaces, text),
        CollationMode::UnicodeNoPunct => retained(Dropped::Punctuation, text),
        CollationMode::UnicodeCiNoSpace => retained(Dropped::Spaces, lowercase_of(text)),
        CollationMode::UnicodeCiNoSpaceBase => lowercase_of(
            retained(Dropped::MarksAndSpaces, canonical_decomposition(text)),
        ),
    }
}

/// Three-way lexicographic order of two sequences of numbers: -1 where
/// `a` comes first, 1 where `b` does, 0 where they are equal. A proper
/// prefix comes before the longer sequence.
pub open spec fn lexicographic(a: Seq<int>, b: Seq<int>) -> int
    decreases a.len(),
{
    if a.len() == 0 {
        if b.len() == 0 {
            0
        } else {
            -1
        }
    } else if b.len() == 0 {
        1
    } else if a[0] < b[0] {
        -1
    } else if a[0] > b[0] {
        1
    } else {
        lexicographic(a.drop_first(), b.drop_first())
    }
}

/// The code points of `text`.
pub open spec fn code_points(text: Seq<char>) -> Seq<int> {
    Seq::new(text.len(), |i: int| text[i] as int)
}

/// The values of `bytes`.
pub open spec fn byte_values(bytes: Seq<u8>) -> Seq<int> {
    Seq::new(bytes.len(), |i: int| bytes[i] as int)
}

/// How `mode` orders `a` and `b`: -1, 0 or 1.
///
/// `Ascii` puts the UTF-8 bytes of the strings in order; every other
/// mode puts the code points of the collation keys in order.
pub open spec fn collation_order(mode: CollationMode, a: Seq<char>, b: Seq<char>) -> int {
    if mode == CollationMode::Ascii {
        lexicographic(byte_values(encode_utf8(a)), byte_values(encode_utf8(b)))
    } else {
        lexicographic(code_points(collation_key(mode, a)), code_points(collation_key(mode, b)))
    }
}

/// The mode that a name stands for; a name that is not known stands for
/// `Unicode`.
pub open spec fn mode_of(name: Seq<char>) -> CollationMode {
    if name == "ascii"@ {
        CollationMode::Ascii
    } else if name == "unicode_ci"@ {
        CollationMode::UnicodeCi
    } else if name == "ascii_ci"@ {
        CollationMode::AsciiCi
    } else if name == "unicode_base"@ {
        CollationMode::UnicodeBase
    } else if name == "unicode_base_ci"@ {
        CollationMode::UnicodeBaseCi
    } else if name == "unicode_no_space"@ {
        CollationMode::UnicodeNoSpace
    } else if name == "unicode_no_punct"@ {
        CollationMode::UnicodeNoPunct
    } else if name == "unicode_ci_no_space"@ {
        CollationMode::UnicodeCiNoSpace
    } else if name == "unicode_ci_no_space_base"@ {
        CollationMode::UnicodeCiNoSpaceBase
    } else {
        CollationMode::Unicode
    }
}

/// The mode that `name` stands for.
pub fn mode_named(name: &str) -> (mode: CollationMode)
    ensures
        mode == mode_of(name@),
{
    if same_text(name, "ascii") {
        CollationMode::Ascii
    } else if same_text(name, "unicode_ci") {
        CollationMode::UnicodeCi
    } else if same_text(name, "ascii_ci") {
        CollationMode::AsciiCi
    } else if same_text(name, "unicode_base") {
        CollationMode::UnicodeBase
    } else if same_text(name, "unicode_base_ci") {
        CollationMode::UnicodeBaseCi
    } else if same_text(name, "unicode_no_space") {
        CollationMode::UnicodeNoSpace
    } else if same_text(name, "unicode_no_punct") {
        CollationMode::UnicodeNoPunct
    } else if same_text(name, "unicode_ci_no_space") {
        CollationMode::UnicodeCiNoSpace
    } else if same_text(name, "unicode_ci_no_space_base") {
        CollationMode::UnicodeCiNoSpaceBase
    } else {
        CollationMode::Unicode
    }
}

/// Whether `c` is an ASCII punctuation character.
pub fn is_ascii_punctuation(c: char) -> (punctuation: bool)
    ensures
        punctuation == ascii_punctuation(c),
{
    let v: u32 = c as u32;
    (0x21 <= v && v <= 0x2F) || (0x3A <= v && v <= 0x40) || (0x5B <= v && v <= 0x60) || (0x7B <= v
        && v <= 0x7E)
}

/// `c` with `A` to `Z` mapped to `a` to `z`.
pub fn to_ascii_lower(c: char) -> (lower: char)
    ensures
        lower == ascii_lower(c),
{
    if 'A' <= c && c <= 'Z' {
        ((c as u8) + 32) as char
    } else {
        c
    }
}

/// Whether a pass that drops `dropped` leaves `c` out.
pub fn is_dropped(dropped: Dropped, c: char) -> (out: bool)
    ensures
        out == drops(dropped, c),
{
    match dropped {
        Dropped::Marks => is_nonspacing_mark(c),
        Dropped::Spaces => is_whitespace(c),
        Dropped::Punctuation => is_ascii_punctuation(c),
        Dropped::MarksAndSpaces => is_nonspacing_mark(c) || is_whitespace(c),
    }
}

/// The characters of `chars` that `dropped` does not leave out.
pub fn retain(dropped: Dropped, chars: &Vec<char>) -> (kept: Vec<char>)
    ensures
        kept@ == retained(dropped, chars@),
{
    let mut kept: Vec<char> = Vec::new();
    let mut i: usize = 0;
    while i < chars.len()
        invariant
            i <= chars.len(),
            kept@ == retained(dropped, chars@.take(i as int)),
        decreases chars.len() - i,
    {
        assert(chars@.take(i + 1).drop_last() == chars@.take(i as int));
        if !is_dropped(dropped, chars[i]) {
            kept.push(chars[i]);
        }
        i = i + 1;
    }
    assert(chars@.take(i as int) == chars@);
    kept
}

/// `chars` with `A` to `Z` in lower case.
pub fn ascii_lowercase(chars: &Vec<char>) -> (lower: Vec<char>)
    ensures
        lower@ == ascii_lowercase_of(chars@),
{
    let mut lower: Vec<char> = Vec::new();
    let mut i: usize = 0;
    while i < chars.len()
        invariant
            i <= chars.len(),
            lower@.len() == i,
            forall|j: int| 0 <= j < i ==> lower@[j] == ascii_lower(chars@[j]),
        decreases chars.len() - i,
    {
        lower.push(to_ascii_lower(chars[i]));
        i = i + 1;
    }
    assert(lower@ =~= ascii_lowercase_of(chars@));
    lower
}

/// The key by which `mode` orders `text`.
pub fn key_of(mode: CollationMode, text: &str) -> (key: Vec<char>)
    ensures
        key@ == collation_key(mode, text@),
{
    match mode {
        CollationMode::Unicode => chars_of(text),
        CollationMode::Ascii => chars_of(text),
        CollationMode::UnicodeCi => {
            let lower = to_lowercase(text);
            chars_of(lower.as_str())
        },
        CollationMode::AsciiCi => {
            let chars = chars_of(text);
            ascii_lowercase(&chars)
        },
        CollationMode::UnicodeBase => {
            let parts = decompose(text);
            retain(Dropped::Marks, &parts)
        },
        CollationMode::UnicodeBaseCi => {
            let parts = decompose(text);
            let base = text_of(&retain(Dropped::Marks, &parts));
            let lower = to_lowercase(base.as_str());
            chars_of(lower.as_str())
        },
        CollationMode::UnicodeNoSpace => {
            let chars = chars_of(text);
            retain(Dropped::Spaces, &chars)
        },
        CollationMode::UnicodeNoPunct => {
            let chars = chars_of(text);
            retain(Dropped::Punctuation, &chars)
        },
        CollationMode::UnicodeCiNoSpace => {
            let lower = to_lowercase(text);
            let chars = chars_of(lower.as_str());
            retain(Dropped::Spaces, &chars)
        },
        CollationMode::UnicodeCiNoSpaceBase => {
            let parts = decompose(text);
            let base = text_of(&retain(Dropped::MarksAndSpaces, &parts));
            let lower = to_lowercase(base.as_str());
            chars_of(lower.as_str())
        },
    }
}

/// Dropping a common first element does not change the order of what
/// follows equal prefixes.
proof fn lemma_lexicographic_skip(a: Seq<int>, b: Seq<int>, i: int)
    requires
        0 <= i <= a.len(),
        i <= b.len(),
        forall|j: int| 0 <= j < i ==> a[j] == b[j],
    ensures
        lexicographic(a, b) == lexicographic(a.skip(i), b.skip(i)),
    decreases i,
{
    if i == 0 {
        assert(a.skip(0) == a);
        assert(b.skip(0) == b);
    } else {
        lemma_lexicographic_skip(a.drop_first(), b.drop_first(), i - 1);
        assert(a.drop_first().skip(i - 1) == a.skip(i));
        assert(b.drop_first().skip(i - 1) == b.skip(i));
    }
}

/// Three-way lexicographic order of two character vectors by code point.
pub fn order_chars(a: &Vec<char>, b: &Vec<char>) -> (order: i32)
    ensures
        order == lexicographic(code_points(a@), code_points(b@)),
{
    let ghost left = code_points(a@);
    let ghost right = code_points(b@);
    let mut i: usize = 0;
    while i < a.len() && i < b.len()
        invariant
            i <= a.len(),
            i <= b.len(),
            left == code_points(a@),
            right == code_points(b@),
            forall|j: int| 0 <= j < i ==> left[j] == right[j],
        decreases a.len() - i,
    {
        let x: char = a[i];
        let y: char = b[i];
        assert(left[i as int] == x as int && right[i as int] == y as int);
        if x != y {
            proof {
                lemma_lexicographic_skip(left, right, i as int);
                assert(left.skip(i as int)[0] == x as int);
                assert(right.skip(i as int)[0] == y as int);
            }
            return if x < y {
                -1
            } else {
                1
            };
        }
        i = i + 1;
    }
    proof {
        lemma_lexicographic_skip(left, right, i as int);
    }
    if i < b.len() {
        -1
    } else if i < a.len() {
        1
    } else {
        0
    }
}

/// Three-way lexicographic order of two byte strings.
pub fn order_bytes(a: &[u8], b: &[u8]) -> (order: i32)
    ensures
        order == lexicographic(byte_values(a@), byte_values(b@)),
{
    let ghost left = byte_values(a@);
    let ghost right = byte_values(b@);
    let mut i: usize = 0;
    while i < a.len() && i < b.len()
        invariant
            i <= a.len(),
            i <= b.len(),
            left == byte_values(a@),
            right == byte_values(b@),
            forall|j: int| 0 <= j < i ==> left[j] == right[j],
        decreases a.len() - i,
    {
        let x: u8 = a[i];
        let y: u8 = b[i];
        if x != y {
            proof {
                lemma_lexicographic_skip(left, right, i as int);
            }
            return if x < y {
                -1
            } else {
                1
            };
        }
        i = i + 1;
    }
    proof {
        lemma_lexicographic_skip(left, right, i as int);
    }
    if i < b.len() {
        -1
    } else if i < a.len() {
        1
    } else {
        0
    }
}

/// Puts `a` and `b` in the order of `mode`: -1 where `a` comes first, 0
/// where the two collate equal, 1 where `b` comes first.
pub fn compare_in(mode: CollationMode, a: &str, b: &str) -> (order: i32)
    ensures
        order == collation_order(mode, a@, b@),
{
    match mode {
        CollationMode::Ascii => order_bytes(a.as_bytes(), b.as_bytes()),
        _ => {
            let left = key_of(mode, a);
            let right = key_of(mode, b);
            order_chars(&left, &right)
        },
    }
}

/// The order is one of -1, 0 and 1.
pub proof fn lemma_lexicographic_range(a: Seq<int>, b: Seq<int>)
    ensures
        -1 <= lexicographic(a, b) <= 1,
    decreases a.len(),
{
    if a.len() > 0 && b.len() > 0 && a[0] == b[0] {
        lemma_lexicographic_range(a.drop_first(), b.drop_first());
    }
}

/// Two sequences collate equal exactly where they are the same.
pub proof fn lemma_lexicographic_equal(a: Seq<int>, b: Seq<int>)
    ensures
        lexicographic(a, b) == 0 <==> a == b,
    decreases a.len(),
{
    if a.len() > 0 && b.len() > 0 && a[0] == b[0] {
        lemma_lexicographic_equal(a.drop_first(), b.drop_first());
        if a.drop_first() == b.drop_first() {
            assert(a =~= seq![a[0]] + a.drop_first());
            assert(b =~= seq![b[0]] + b.drop_first());
        }
    } else if a.len() == 0 && b.len() == 0 {
        assert(a =~= b);
    }
}

/// Swapping the two sides turns the order round.
pub proof fn lemma_lexicographic_antisymmetric(a: Seq<int>, b: Seq<int>)
    ensures
        lexicographic(b, a) == -lexicographic(a, b),
    decreases a.len(),
{
    if a.len() > 0 && b.len() > 0 && a[0] == b[0] {
        lemma_lexicographic_antisymmetric(a.drop_first(), b.drop_first());
    }
}

/// What does not come after something that does not come after a third
/// does not come after the third.
pub proof fn lemma_lexicographic_transitive(a: Seq<int>, b: Seq<int>, c: Seq<int>)
    requires
        lexicographic(a, b) <= 0,
        lexicographic(b, c) <= 0,
    ensures
        lexicographic(a, c) <= 0,
        lexicographic(a, b) < 0 || lexicographic(b, c) < 0 ==> lexicographic(a, c) < 0,
    decreases a.len(),
{
    if a.len() > 0 && b.len() > 0 && c.len() > 0 && a[0] == b[0] && b[0] == c[0] {
        lemma_lexicographic_transitive(a.drop_first(), b.drop_first(), c.drop_first());
    }
}

/// Under every mode the strings are in a total preorder: each string
/// collates equal to itself, swapping the sides turns the result
/// round, and the order carries over a middle string.
pub proof fn lemma_collation_is_total_preorder(
    mode: CollationMode,
    a: Seq<char>,
    b: Seq<char>,
    c: Seq<char>,
)
    ensures
        -1 <= collation_order(mode, a, b) <= 1,
        collation_order(mode, a, a) == 0,
        collation_order(mode, b, a) == -collation_order(mode, a, b),
        collation_order(mode, a, b) <= 0 && collation_order(mode, b, c) <= 0 ==> collation_order(
            mode,
            a,
            c,
        ) <= 0,
{
    if mode == CollationMode::Ascii {
        let x = byte_values(encode_utf8(a));
        let y = byte_values(encode_utf8(b));
        let z = byte_values(encode_utf8(c));
        lemma_lexicographic_range(x, y);
        lemma_lexicographic_equal(x, x);
        lemma_lexicographic_antisymmetric(x, y);
        if lexicographic(x, y) <= 0 && lexicographic(y, z) <= 0 {
            lemma_lexicographic_transitive(x, y, z);
        }
    } else {
        let x = code_points(collation_key(mode, a));
        let y = code_points(collation_key(mode, b));
        let z = code_points(collation_key(mode, c));
        lemma_lexicographic_range(x, y);
        lemma_lexicographic_equal(x, x);
        lemma_lexicographic_antisymmetric(x, y);
        if lexicographic(x, y) <= 0 && lexicographic(y, z) <= 0 {
            lemma_lexicographic_transitive(x, y, z);
        }
    }
}

} // verus!
