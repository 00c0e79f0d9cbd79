use anlocales::binary64::{scale_down, scale_up, whole_part_of};
use anlocales::data_format::{DataFormat, LC_COLLATE, LC_MONETARY, LC_NUMERIC, LC_TIME};
use anlocales::locale::Locale;
use anlocales::plural::{
    evaluate_condition, evaluate_conjunction, evaluate_leaf, evaluate_rule, find_pair, index_of,
    is_all_blank, read_relation, substitute, test_relation, whole_of, PluralEvaluator, Relation,
};
use anlocales::table::StringTable;

fn chars(text: &str) -> Vec<char> {
    text.chars().collect()
}

fn value(text: &str) -> Option<u64> {
    evaluate_rule(&chars(text))
}

fn strings(entries: &[(&str, &[&str])]) -> StringTable {
    let mut table = StringTable::new();
    for (key, forms) in entries {
        table.insert(key.to_string(), forms.iter().map(|form| form.to_string()).collect());
    }
    table
}

fn locale_with_rule(rule: &str, table: StringTable) -> Locale {
    let data = DataFormat {
        LC_TIME: LC_TIME {
            days: vec!["d".to_string(); 7],
            months: vec!["m".to_string(); 12],
            date_fmt: "%Y".to_string(),
        },
        LC_NUMERIC: LC_NUMERIC {
            decimal_point: ".".to_string(),
            thousands_sep: ",".to_string(),
            grouping: vec![3],
        },
        LC_MONETARY: LC_MONETARY {
            currency_symbol: "$".to_string(),
            int_curr_symbol: "USD".to_string(),
            mon_decimal_point: ".".to_string(),
            mon_thousands_sep: ",".to_string(),
            positive_sign: "".to_string(),
            negative_sign: "-".to_string(),
            frac_digits: 2,
            p_cs_precedes: true,
            p_sep_by_space: false,
            p_sign_posn: 1,
            n_cs_precedes: true,
            n_sep_by_space: false,
            n_sign_posn: 1,
        },
        LC_COLLATE: LC_COLLATE { sort_order: "unicode".to_string() },
        PLURAL_RULES: rule.to_string(),
    };
    Locale::load("xx", data, table).unwrap()
}

#[test]
fn plural_one_and_many() {
    let locale = locale_with_rule("n != 1", strings(&[("item", &["one", "many"])]));
    assert_eq!(locale.plural_fn.select_form(1), 0);
    assert_eq!(locale.plural_fn.select_form(5), 1);
    assert_eq!(locale.plural_fn.select_form(0), 1);
    assert_eq!(locale.plural_word("item", 1), "one");
    assert_eq!(locale.plural_word("item", 5), "many");
    assert_eq!(locale.plural_word("item", 0), "many");
}

#[test]
fn plural_index_past_the_end_selects_the_last_form() {
    let locale = locale_with_rule("5", strings(&[("item", &["first", "second"])]));
    assert_eq!(locale.plural_fn.select_form(3), 5);
    assert_eq!(locale.plural_word("item", 3), "second");
    let locale = locale_with_rule("n", strings(&[("item", &["a", "b", "c"])]));
    assert_eq!(locale.plural_word("item", 0), "a");
    assert_eq!(locale.plural_word("item", 1), "b");
    assert_eq!(locale.plural_word("item", 2), "c");
    assert_eq!(locale.plural_word("item", 3), "c");
    assert_eq!(locale.plural_word("item", u32::MAX), "c");
}

#[test]
fn plural_missing_key_and_key_without_forms() {
    let mut locale = locale_with_rule("n != 1", strings(&[("item", &["one", "many"])]));
    assert_eq!(locale.plural_word("no.such.key", 2), "no.such.key");
    locale.strings.insert("bare".to_string(), vec![]);
    assert_eq!(locale.plural_word("bare", 2), "bare");
    assert_eq!(locale.t("bare"), "bare");
}

#[test]
fn plural_rule_that_cannot_be_evaluated_selects_the_first_form() {
    for rule in ["", " ", "\t\n", "n +", "(n", "n )", "bogus(n)", "n = 1", "n ! 1", "n & 1", "x"] {
        let evaluator = PluralEvaluator::new(rule);
        assert_eq!(evaluator.select_form(3), 0);
    }
    let locale = locale_with_rule("n +", strings(&[("item", &["one", "many"])]));
    assert_eq!(locale.plural_word("item", 7), "one");
}

#[test]
fn plural_division_by_zero_selects_the_first_form() {
    assert_eq!(PluralEvaluator::new("n / 0").select_form(3), 0);
    assert_eq!(PluralEvaluator::new("n % 0").select_form(3), 0);
    assert_eq!(PluralEvaluator::new("0 / 0").select_form(3), 0);
    assert_eq!(PluralEvaluator::new("1 / (n - n) == 1").select_form(3), 0);
}

#[test]
fn plural_arithmetic_is_truncated() {
    assert_eq!(PluralEvaluator::new("n % 10").select_form(123), 3);
    assert_eq!(PluralEvaluator::new("n / 2").select_form(3), 1);
    assert_eq!(PluralEvaluator::new("n / 2 * 2").select_form(3), 3);
    assert_eq!(PluralEvaluator::new("n - 5").select_form(3), 0);
    assert_eq!(PluralEvaluator::new("(n + 1) * 2").select_form(3), 8);
    assert_eq!(PluralEvaluator::new("2 ^ n").select_form(10), 1024);
    assert_eq!(PluralEvaluator::new("floor(n / 4)").select_form(10), 2);
    assert_eq!(PluralEvaluator::new("10 ^ 30").select_form(0), usize::MAX);
}

#[test]
fn plural_every_n_is_replaced() {
    assert_eq!(substitute("n != 1", 5), "5 != 1");
    assert_eq!(substitute("n % 10 == 1 && n % 100 != 11", 21), "21 % 10 == 1 && 21 % 100 != 11");
    assert_eq!(substitute("min(n, 3)", 7), "mi7(7, 3)");
    assert_eq!(substitute("", 7), "");
    assert_eq!(substitute("nn", 0), "00");
    assert_eq!(substitute("N", u32::MAX), "N");
    assert_eq!(substitute("n", u32::MAX), "4294967295");
    assert_eq!(PluralEvaluator::new("min(n, 3)").select_form(7), 0);
}

#[test]
fn plural_comparisons() {
    assert_eq!(value("1 == 1"), Some(1));
    assert_eq!(value("1 == 2"), Some(0));
    assert_eq!(value("1 != 2"), Some(1));
    assert_eq!(value("2 < 3"), Some(1));
    assert_eq!(value("3 < 3"), Some(0));
    assert_eq!(value("3 <= 3"), Some(1));
    assert_eq!(value("4 <= 3"), Some(0));
    assert_eq!(value("4 > 3"), Some(1));
    assert_eq!(value("3 > 3"), Some(0));
    assert_eq!(value("3 >= 3"), Some(1));
    assert_eq!(value("2 >= 3"), Some(0));
    assert_eq!(value("2+2==4"), Some(1));
    assert_eq!(value("7 / 2 == 3"), Some(1));
    assert_eq!(value("1 < 2 < 3"), None);
    assert_eq!(value("== 1"), None);
    assert_eq!(value("1 =="), None);
}

#[test]
fn plural_connectives() {
    assert_eq!(value("1 && 1"), Some(1));
    assert_eq!(value("1 && 0"), Some(0));
    assert_eq!(value("0 || 0"), Some(0));
    assert_eq!(value("0 || 7"), Some(1));
    assert_eq!(value("0 && 1 || 1"), Some(1));
    assert_eq!(value("1 || 1 && 0"), Some(1));
    assert_eq!(value("0 || 1 && 0"), Some(0));
    assert_eq!(value("1 == 1 && 2 != 2 || 3 < 4"), Some(1));
    assert_eq!(value("1 || x"), None);
    assert_eq!(value("1 &&"), None);
    assert_eq!(value("|| 1"), None);
    assert_eq!(value("1 | 1"), None);
    assert_eq!(value("0 || 0 || 0 || 2"), Some(1));
    assert_eq!(value("0 || 0 || 0 || 0"), Some(0));
    assert_eq!(value("1 && 2 && 3 && 4"), Some(1));
    assert_eq!(value("1 && 2 && 0 && 4"), Some(0));
    assert_eq!(value("0 || x || 1"), None);
    assert_eq!(value("1 && 1 &&"), None);
    assert_eq!(value("1 ||| 1"), None);
}

#[test]
fn plural_long_rules() {
    let mut rule = String::from("n == 0");
    for i in 1..20000 {
        rule.push_str(&format!(" || n == {}", 3 * i));
    }
    let evaluator = PluralEvaluator::new(&rule);
    assert_eq!(evaluator.select_form(59997), 1);
    assert_eq!(evaluator.select_form(59998), 0);
}

#[test]
fn plural_slavic_style_rule() {
    let rule = PluralEvaluator::new("n % 10 == 1 && n % 100 != 11");
    assert_eq!(rule.select_form(1), 1);
    assert_eq!(rule.select_form(21), 1);
    assert_eq!(rule.select_form(11), 0);
    assert_eq!(rule.select_form(111), 0);
    assert_eq!(rule.select_form(2), 0);
    let rule = PluralEvaluator::new("n == 0 || n > 10");
    assert_eq!(rule.select_form(0), 1);
    assert_eq!(rule.select_form(5), 0);
    assert_eq!(rule.select_form(11), 1);
}

#[test]
fn plural_pieces() {
    assert_eq!(evaluate_leaf(&chars(" 2 * 3 ")), Some(6));
    assert_eq!(evaluate_leaf(&chars("   ")), None);
    assert_eq!(evaluate_leaf(&chars("")), None);
    assert_eq!(evaluate_leaf(&chars("2 *")), None);
    assert_eq!(evaluate_leaf(&chars("pi")), Some(3));
    assert_eq!(evaluate_leaf(&chars("-4")), Some(0));
    assert_eq!(evaluate_condition(&chars("2 * 3 >= 6")), Some(1));
    assert_eq!(evaluate_condition(&chars("2 * 3")), Some(6));
    assert_eq!(evaluate_conjunction(&chars("5 && 0")), Some(0));
    assert_eq!(evaluate_conjunction(&chars("5")), Some(5));
    assert_eq!(find_pair(&chars("a && b && c"), 0, '&', '&'), Some(2));
    assert_eq!(find_pair(&chars("a && b && c"), 2, '&', '&'), Some(2));
    assert_eq!(find_pair(&chars("a && b && c"), 3, '&', '&'), Some(7));
    assert_eq!(find_pair(&chars("a && b && c"), 8, '&', '&'), None);
    assert_eq!(find_pair(&chars("a && b && c"), 99, '&', '&'), None);
    assert_eq!(find_pair(&chars("a &&& b"), 0, '&', '&'), Some(2));
    assert_eq!(find_pair(&chars("a & b"), 0, '&', '&'), None);
    assert_eq!(find_pair(&chars("&"), 0, '&', '&'), None);
    assert_eq!(find_pair(&chars(""), 0, '|', '|'), None);
    assert_eq!(read_relation(&chars("a<=b"), 1), Some((Relation::LessOrEqual, 2)));
    assert_eq!(read_relation(&chars("a<b"), 1), Some((Relation::Less, 1)));
    assert_eq!(read_relation(&chars("a>"), 1), Some((Relation::Greater, 1)));
    assert_eq!(read_relation(&chars("a!=b"), 1), Some((Relation::NotEqual, 2)));
    assert_eq!(read_relation(&chars("a==b"), 1), Some((Relation::Equal, 2)));
    assert_eq!(read_relation(&chars("a>=b"), 1), Some((Relation::GreaterOrEqual, 2)));
    assert_eq!(read_relation(&chars("a=b"), 1), None);
    assert_eq!(read_relation(&chars("a!"), 1), None);
    assert_eq!(read_relation(&chars("a"), 5), None);
    assert!(is_all_blank(&chars(" \t\r\n")));
    assert!(is_all_blank(&chars("")));
    assert!(!is_all_blank(&chars(" \u{a0} ")));
    assert!(test_relation(Relation::Less, 1, 2));
    assert!(!test_relation(Relation::Greater, 1, 2));
    assert_eq!(index_of(None), 0);
    assert_eq!(index_of(Some(9)), 9);
    assert_eq!(index_of(Some(u64::MAX)), usize::MAX);
}

#[test]
fn whole_parts_of_doubles() {
    assert_eq!(whole_part_of(0.0f64.to_bits()), Some(0));
    assert_eq!(whole_part_of((-0.0f64).to_bits()), Some(0));
    assert_eq!(whole_part_of(0.999f64.to_bits()), Some(0));
    assert_eq!(whole_part_of(1.0f64.to_bits()), Some(1));
    assert_eq!(whole_part_of(1.5f64.to_bits()), Some(1));
    assert_eq!(whole_part_of(5.0f64.to_bits()), Some(5));
    assert_eq!(whole_part_of(1234567.89f64.to_bits()), Some(1234567));
    assert_eq!(whole_part_of((-3.7f64).to_bits()), Some(0));
    assert_eq!(whole_part_of(f64::MIN_POSITIVE.to_bits()), Some(0));
    assert_eq!(whole_part_of(5e-324f64.to_bits()), Some(0));
    assert_eq!(whole_part_of(4503599627370496.0f64.to_bits()), Some(4503599627370496));
    assert_eq!(whole_part_of(9007199254740993.0f64.to_bits()), Some(9007199254740992));
    assert_eq!(whole_part_of(9223372036854775808.0f64.to_bits()), Some(9223372036854775808));
    assert_eq!(whole_part_of(18446744073709549568.0f64.to_bits()), Some(18446744073709549568));
    assert_eq!(whole_part_of(18446744073709551616.0f64.to_bits()), Some(u64::MAX));
    assert_eq!(whole_part_of(1e30f64.to_bits()), Some(u64::MAX));
    assert_eq!(whole_part_of(f64::MAX.to_bits()), Some(u64::MAX));
    assert_eq!(whole_part_of(f64::INFINITY.to_bits()), None);
    assert_eq!(whole_part_of(f64::NEG_INFINITY.to_bits()), None);
    assert_eq!(whole_part_of(f64::NAN.to_bits()), None);
    assert_eq!(whole_of(None), None);
    assert_eq!(whole_of(Some(2.5f64.to_bits())), Some(2));
    for n in [0u64, 1, 2, 3, 10, 255, 65536, 123456789, 1 << 40, (1 << 53) - 1] {
        assert_eq!(whole_part_of((n as f64).to_bits()), Some(n));
        assert_eq!(whole_part_of((n as f64 + 0.5).to_bits()), Some((n as f64 + 0.5) as u64));
    }
}

#[test]
fn scaling_by_powers_of_two() {
    assert_eq!(scale_up(3, 0), 3);
    assert_eq!(scale_up(3, 4), 48);
    assert_eq!(scale_up(1, 63), 1 << 63);
    assert_eq!(scale_up(1, 64), u64::MAX);
    assert_eq!(scale_up(0, 1000), 0);
    assert_eq!(scale_up(5, 900), u64::MAX);
    assert_eq!(scale_down(48, 4), 3);
    assert_eq!(scale_down(49, 4), 3);
    assert_eq!(scale_down(u64::MAX, 63), 1);
    assert_eq!(scale_down(u64::MAX, 64), 0);
    assert_eq!(scale_down(7, 0), 7);
}
