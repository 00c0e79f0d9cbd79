use anlocales::collate::{
    ascii_lowercase, compare_in, is_ascii_punctuation, is_dropped, key_of, mode_named, order_bytes,
    order_chars, retain, to_ascii_lower, CollationMode, Dropped,
};
use anlocales::data_format::{DataFormat, LC_COLLATE, LC_MONETARY, LC_NUMERIC, LC_TIME};
use anlocales::locale::Locale;
use anlocales::table::StringTable;
use anlocales::text::{chars_of, same_text, sub_chars, text_of};

fn locale_sorted_by(mode: &str) -> Locale {
    let data = DataFormat {
        LC_TIME: LC_TIME {
            days: vec!["d".to_string(); 7],
            months: vec!["m".to_string(); 12],
            date_fmt: "%Y".to_string(),
        },
        LC_NUMERIC: LC_NUMERIC {
            decimal_point: ".".to_string(),
            thousands_sep: ",".to_string(),
            grouping: vec![3],
        },
        LC_MONETARY: LC_MONETARY {
            currency_symbol: "$".to_string(),
            int_curr_symbol: "USD".to_string(),
            mon_decimal_point: ".".to_string(),
            mon_thousands_sep: ",".to_string(),
            positive_sign: "".to_string(),
            negative_sign: "-".to_string(),
            frac_digits: 2,
            p_cs_precedes: true,
            p_sep_by_space: false,
            p_sign_posn: 1,
            n_cs_precedes: true,
            n_sep_by_space: false,
            n_sign_posn: 1,
        },
        LC_COLLATE: LC_COLLATE { sort_order: mode.to_string() },
        PLURAL_RULES: "n != 1".to_string(),
    };
    Locale::load("xx", data, StringTable::new()).unwrap()
}

fn compare(mode: &str, a: &str, b: &str) -> i32 {
    locale_sorted_by(mode).compare(a, b)
}

#[test]
fn collation_case_insensitive() {
    assert_eq!(compare("unicode_ci", "Abc", "abc"), 0);
}

#[test]
fn collation_ascii_bytes() {
    assert_eq!(compare("ascii", "b", "a"), 1);
}

#[test]
fn collation_base_letters() {
    assert_eq!(compare("unicode_base", "caf\u{e9}", "cafe"), 0);
}

#[test]
fn collation_raw_order() {
    assert_eq!(compare("unicode", "Abc", "abc"), -1);
    assert_eq!(compare("unicode", "abc", "Abc"), 1);
    assert_eq!(compare("unicode", "abc", "abc"), 0);
    assert_eq!(compare("unicode", "ab", "abc"), -1);
    assert_eq!(compare("unicode", "abc", "ab"), 1);
    assert_eq!(compare("unicode", "", ""), 0);
    assert_eq!(compare("unicode", "", "a"), -1);
    assert_eq!(compare("unicode", "caf\u{e9}", "cafe"), 1);
    assert_eq!(compare("unicode", "z", "\u{e9}"), -1);
    assert_eq!(compare("unicode", "\u{ff5e}", "\u{1f600}"), -1);
}

#[test]
fn collation_unknown_mode_is_raw_order() {
    assert_eq!(compare("klingon", "Abc", "abc"), -1);
    assert_eq!(compare("", "b", "a"), 1);
    assert_eq!(compare("UNICODE_CI", "Abc", "abc"), -1);
    assert_eq!(mode_named("klingon"), CollationMode::Unicode);
    assert_eq!(mode_named("unicode"), CollationMode::Unicode);
}

#[test]
fn collation_mode_names() {
    assert_eq!(mode_named("ascii"), CollationMode::Ascii);
    assert_eq!(mode_named("unicode_ci"), CollationMode::UnicodeCi);
    assert_eq!(mode_named("ascii_ci"), CollationMode::AsciiCi);
    assert_eq!(mode_named("unicode_base"), CollationMode::UnicodeBase);
    assert_eq!(mode_named("unicode_base_ci"), CollationMode::UnicodeBaseCi);
    assert_eq!(mode_named("unicode_no_space"), CollationMode::UnicodeNoSpace);
    assert_eq!(mode_named("unicode_no_punct"), CollationMode::UnicodeNoPunct);
    assert_eq!(mode_named("unicode_ci_no_space"), CollationMode::UnicodeCiNoSpace);
    assert_eq!(mode_named("unicode_ci_no_space_base"), CollationMode::UnicodeCiNoSpaceBase);
}

#[test]
fn collation_ascii_ci_leaves_other_letters() {
    assert_eq!(compare("ascii_ci", "ABC", "abc"), 0);
    assert_eq!(compare("ascii_ci", "\u{c9}", "\u{e9}"), -1);
    assert_eq!(compare("unicode_ci", "\u{c9}", "\u{e9}"), 0);
    assert_eq!(to_ascii_lower('A'), 'a');
    assert_eq!(to_ascii_lower('Z'), 'z');
    assert_eq!(to_ascii_lower('@'), '@');
    assert_eq!(to_ascii_lower('['), '[');
    assert_eq!(to_ascii_lower('\u{c9}'), '\u{c9}');
    assert_eq!(ascii_lowercase(&vec!['H', 'i', '!', '\u{c9}']), vec!['h', 'i', '!', '\u{c9}']);
}

#[test]
fn collation_base_then_case() {
    assert_eq!(compare("unicode_base_ci", "CAF\u{c9}", "cafe"), 0);
    assert_eq!(compare("unicode_base", "CAF\u{c9}", "cafe"), -1);
    assert_eq!(compare("unicode_base", "e\u{301}", "e"), 0);
}

#[test]
fn collation_without_spaces() {
    assert_eq!(compare("unicode_no_space", "a b\tc", "abc"), 0);
    assert_eq!(compare("unicode_no_space", "a\u{a0}b", "ab"), 0);
    assert_eq!(compare("unicode_no_space", "A b", "ab"), -1);
    assert_eq!(compare("unicode_ci_no_space", "A B", "ab"), 0);
    assert_eq!(compare("unicode_ci_no_space_base", " CAF\u{c9} ", "cafe"), 0);
    assert_eq!(compare("unicode_ci_no_space", " CAF\u{c9} ", "cafe"), 1);
}

#[test]
fn collation_without_punctuation() {
    assert_eq!(compare("unicode_no_punct", "a-b,c!", "abc"), 0);
    assert_eq!(compare("unicode_no_punct", "a b", "ab"), -1);
    assert_eq!(compare("unicode_no_punct", "a\u{2014}b", "ab"), 1);
    for c in "!\"#$%&'()*+,-./:;<=>?@[\\]^_`{|}~".chars() {
        assert!(is_ascii_punctuation(c));
    }
    for c in "aZ09 \u{7f}\u{a1}".chars() {
        assert!(!is_ascii_punctuation(c));
    }
}

#[test]
fn collation_keys() {
    assert_eq!(key_of(CollationMode::Unicode, "A b"), vec!['A', ' ', 'b']);
    assert_eq!(key_of(CollationMode::UnicodeCi, "A b"), vec!['a', ' ', 'b']);
    assert_eq!(key_of(CollationMode::UnicodeBase, "\u{e9}"), vec!['e']);
    assert_eq!(key_of(CollationMode::UnicodeNoSpace, "A b"), vec!['A', 'b']);
    assert_eq!(key_of(CollationMode::UnicodeCiNoSpaceBase, "\u{c9} x"), vec!['e', 'x']);
}

#[test]
fn collation_dropped_characters() {
    assert!(is_dropped(Dropped::Marks, '\u{301}'));
    assert!(!is_dropped(Dropped::Marks, 'e'));
    assert!(is_dropped(Dropped::Spaces, ' '));
    assert!(!is_dropped(Dropped::Spaces, '\u{301}'));
    assert!(is_dropped(Dropped::Punctuation, '-'));
    assert!(is_dropped(Dropped::MarksAndSpaces, '\u{301}'));
    assert!(is_dropped(Dropped::MarksAndSpaces, '\n'));
    assert!(!is_dropped(Dropped::MarksAndSpaces, '-'));
    assert_eq!(retain(Dropped::Spaces, &vec![' ', 'a', ' ', 'b', ' ']), vec!['a', 'b']);
    assert_eq!(retain(Dropped::Punctuation, &vec![]), Vec::<char>::new());
}

#[test]
fn collation_is_a_three_way_order() {
    let words = ["", "a", "A", "ab", "b", "caf\u{e9}", "cafe", "a b", "a-b", "Z"];
    let modes = [
        CollationMode::Unicode,
        CollationMode::Ascii,
        CollationMode::UnicodeCi,
        CollationMode::AsciiCi,
        CollationMode::UnicodeBase,
        CollationMode::UnicodeBaseCi,
        CollationMode::UnicodeNoSpace,
        CollationMode::UnicodeNoPunct,
        CollationMode::UnicodeCiNoSpace,
        CollationMode::UnicodeCiNoSpaceBase,
    ];
    for mode in modes {
        for a in words {
            assert_eq!(compare_in(mode, a, a), 0);
            for b in words {
                let ab = compare_in(mode, a, b);
                assert!(ab == -1 || ab == 0 || ab == 1);
                assert_eq!(compare_in(mode, b, a), -ab);
                for c in words {
                    if ab <= 0 && compare_in(mode, b, c) <= 0 {
                        assert!(compare_in(mode, a, c) <= 0);
                    }
                }
            }
        }
    }
}

#[test]
fn collation_bytes_and_code_points_agree() {
    let words = ["", "a", "\u{e9}", "\u{ff5e}", "\u{1f600}", "a\u{e9}", "ab"];
    for a in words {
        for b in words {
            assert_eq!(
                compare_in(CollationMode::Ascii, a, b),
                compare_in(CollationMode::Unicode, a, b)
            );
        }
    }
}

#[test]
fn order_of_sequences() {
    assert_eq!(order_chars(&vec!['a', 'b'], &vec!['a', 'c']), -1);
    assert_eq!(order_chars(&vec!['a', 'c'], &vec!['a', 'b']), 1);
    assert_eq!(order_chars(&vec!['a'], &vec!['a', 'b']), -1);
    assert_eq!(order_chars(&vec![], &vec![]), 0);
    assert_eq!(order_bytes(&[1, 2, 3], &[1, 2, 3]), 0);
    assert_eq!(order_bytes(&[1, 2, 3], &[1, 2]), 1);
    assert_eq!(order_bytes(&[0], &[255]), -1);
    assert_eq!(order_bytes(&[255], &[0, 0]), 1);
}

#[test]
fn text_helpers() {
    assert_eq!(chars_of("h\u{e9}!"), vec!['h', '\u{e9}', '!']);
    assert_eq!(text_of(&vec!['h', '\u{e9}', '!']), "h\u{e9}!");
    assert_eq!(text_of(&vec![]), "");
    assert_eq!(sub_chars(&vec!['a', 'b', 'c', 'd'], 1, 3), vec!['b', 'c']);
    assert_eq!(sub_chars(&vec!['a', 'b'], 2, 2), Vec::<char>::new());
    assert!(same_text("abc", "abc"));
    assert!(!same_text("abc", "abd"));
    assert!(!same_text("abc", "ab"));
}
