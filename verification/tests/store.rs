use anlocales::data_format::{DataFormat, LC_COLLATE, LC_MONETARY, LC_NUMERIC, LC_TIME};
use anlocales::locale::{LoadError, Locale};
use anlocales::store::{AnLocales, Settings};
use anlocales::table::StringTable;

fn data(grouping: Vec<u8>, days: usize, months: usize) -> DataFormat {
    DataFormat {
        LC_TIME: LC_TIME {
            days: vec!["d".to_string(); days],
            months: vec!["m".to_string(); months],
            date_fmt: "%d.%m.%Y".to_string(),
        },
        LC_NUMERIC: LC_NUMERIC {
            decimal_point: ".".to_string(),
            thousands_sep: ",".to_string(),
            grouping,
        },
        LC_MONETARY: LC_MONETARY {
            currency_symbol: "$".to_string(),
            int_curr_symbol: "USD".to_string(),
            mon_decimal_point: ".".to_string(),
            mon_thousands_sep: ",".to_string(),
            positive_sign: "".to_string(),
            negative_sign: "-".to_string(),
            frac_digits: 2,
            p_cs_precedes: true,
            p_sep_by_space: false,
            p_sign_posn: 1,
            n_cs_precedes: true,
            n_sep_by_space: false,
            n_sign_posn: 1,
        },
        LC_COLLATE: LC_COLLATE { sort_order: "unicode_ci".to_string() },
        PLURAL_RULES: "n != 1".to_string(),
    }
}

fn good_data() -> DataFormat {
    data(vec![3], 7, 12)
}

fn table(word: &str) -> StringTable {
    let mut strings = StringTable::new();
    strings.insert("greeting".to_string(), vec![word.to_string()]);
    strings.insert("apple".to_string(), vec!["apple".to_string(), "apples".to_string()]);
    strings
}

fn settings(default_locale: &str, fallback_locale: &str) -> Settings {
    Settings {
        default_locale: default_locale.to_string(),
        fallback_locale: fallback_locale.to_string(),
    }
}

fn supply(name: &str) -> Result<(DataFormat, StringTable), LoadError> {
    match name {
        "en_US" => Ok((good_data(), table("hello"))),
        "de_DE" => Ok((good_data(), table("hallo"))),
        "broken" => Ok((data(vec![3, 0], 7, 12), table("x"))),
        "garbled" => Err(LoadError::InvalidStrings),
        _ => Err(LoadError::Unavailable),
    }
}

fn nothing(_name: &str) -> Result<(DataFormat, StringTable), LoadError> {
    Err(LoadError::Unavailable)
}

#[test]
fn translate_missing_key() {
    let locale = Locale::load("en_US", good_data(), table("hello")).unwrap();
    assert_eq!(locale.t("no.such.key"), "no.such.key");
}

#[test]
fn translate_first_form() {
    let locale = Locale::load("en_US", good_data(), table("hello")).unwrap();
    assert_eq!(locale.t("greeting"), "hello");
    assert_eq!(locale.t("apple"), "apple");
    assert_eq!(locale.t(""), "");
    assert_eq!(locale.name, "en_US");
    assert_eq!(locale.plural_fn.rule, "n != 1");
}

#[test]
fn load_twice_gives_the_same_locale() {
    let mut store = AnLocales::new(settings("en_US", "de_DE"));
    let first = store.load_locale("en_US", supply).unwrap().clone();
    assert_eq!(store.cache.len(), 1);
    let second = store.load_locale("en_US", nothing).unwrap().clone();
    assert_eq!(store.cache.len(), 1);
    assert_eq!(first.name, second.name);
    assert_eq!(first.t("greeting"), second.t("greeting"));
    assert_eq!(first.plural_word("apple", 3), second.plural_word("apple", 3));
    assert_eq!(first.format_money(-123450), second.format_money(-123450));
    assert_eq!(first.format_numeric(true, 1234567, Some("5")), second.format_numeric(true, 1234567, Some("5")));
    assert_eq!(first.format_date(2020, 2, 29), second.format_date(2020, 2, 29));
    assert_eq!(first.compare("Abc", "abd"), second.compare("Abc", "abd"));
    assert_eq!(second.format_money(-123450), "-$1,234.50");
    assert_eq!(second.format_date(2020, 2, 29), Some("29.02.2020".to_string()));
}

#[test]
fn load_asks_for_a_name_once() {
    let mut store = AnLocales::new(settings("en_US", "de_DE"));
    let mut asked = 0;
    assert!(store.load_locale("en_US", |name| { asked += 1; supply(name) }).is_ok());
    assert!(store.load_locale("en_US", |name| { asked += 1; supply(name) }).is_ok());
    assert!(store.load_locale("de_DE", |name| { asked += 1; supply(name) }).is_ok());
    assert!(store.load_locale("en_US", |name| { asked += 1; supply(name) }).is_ok());
    assert_eq!(asked, 2);
    assert_eq!(store.cache.len(), 2);
    assert_eq!(store.get("en_US").unwrap().t("greeting"), "hello");
    assert_eq!(store.get("de_DE").unwrap().t("greeting"), "hallo");
    assert!(store.get("fr_FR").is_none());
    assert_eq!(store.find("de_DE"), Some(1));
}

#[test]
fn load_failures_leave_the_store_alone() {
    let mut store = AnLocales::new(settings("en_US", "de_DE"));
    assert!(store.load_locale("en_US", supply).is_ok());
    assert_eq!(store.load_locale("fr_FR", supply).err(), Some(LoadError::Unavailable));
    assert_eq!(store.load_locale("broken", supply).err(), Some(LoadError::InvalidData));
    assert_eq!(store.load_locale("garbled", supply).err(), Some(LoadError::InvalidStrings));
    assert_eq!(store.cache.len(), 1);
    assert!(store.get("broken").is_none());
    assert!(store.load_locale("broken", |_| Ok((good_data(), table("mended")))).is_ok());
    assert_eq!(store.cache.len(), 2);
    assert_eq!(store.get("en_US").unwrap().t("greeting"), "hello");
}

#[test]
fn load_error_variants() {
    assert_eq!(
        Locale::load("x", data(vec![3], 6, 12), table("x")).err(),
        Some(LoadError::InvalidData)
    );
    assert_eq!(
        Locale::load("x", data(vec![3], 7, 13), table("x")).err(),
        Some(LoadError::InvalidData)
    );
    assert_eq!(
        Locale::load("x", data(vec![0], 7, 12), table("x")).err(),
        Some(LoadError::InvalidData)
    );
    let mut bare = table("x");
    bare.insert("bare".to_string(), vec![]);
    assert_eq!(Locale::load("x", good_data(), bare.clone()).err(), Some(LoadError::InvalidStrings));
    assert_eq!(
        Locale::load("x", data(vec![0], 7, 12), bare).err(),
        Some(LoadError::InvalidData)
    );
    assert!(Locale::load("x", data(vec![], 7, 12), StringTable::new()).is_ok());
    let mut store = AnLocales::new(Settings::default());
    assert_eq!(store.install("x", Err(LoadError::Unavailable)).err(), Some(LoadError::Unavailable));
}

#[test]
fn install_serves_what_is_loaded() {
    let mut store = AnLocales::new(Settings::default());
    assert_eq!(store.install("en_US", Ok((good_data(), table("hello")))).unwrap().t("greeting"), "hello");
    assert_eq!(store.install("en_US", Ok((good_data(), table("other")))).unwrap().t("greeting"), "hello");
    assert_eq!(store.install("en_US", Err(LoadError::Unavailable)).unwrap().t("greeting"), "hello");
    assert_eq!(store.cache.len(), 1);
}

#[test]
fn default_and_fallback_locale() {
    let mut store = AnLocales::new(settings("de_DE", "en_US"));
    assert_eq!(store.default_locale(supply).unwrap().name, "de_DE");
    assert_eq!(store.fallback_locale(supply).unwrap().name, "en_US");
    assert_eq!(store.default_locale(nothing).unwrap().t("greeting"), "hallo");
    assert_eq!(store.fallback_locale(nothing).unwrap().t("greeting"), "hello");
    assert_eq!(store.cache.len(), 2);
    let mut store = AnLocales::new(settings("fr_FR", "en_US"));
    assert_eq!(store.default_locale(supply).err(), Some(LoadError::Unavailable));
    assert_eq!(store.fallback_locale(supply).unwrap().t("no.such.key"), "no.such.key");
}

#[test]
fn default_settings() {
    let defaults = Settings::default();
    assert_eq!(defaults.default_locale, "en_US");
    assert_eq!(defaults.fallback_locale, "en_US");
}

#[test]
fn new_stores_are_empty() {
    let store = AnLocales::new(settings("a", "b"));
    assert_eq!(store.settings.default_locale, "a");
    assert_eq!(store.settings.fallback_locale, "b");
    assert!(store.cache.is_empty());
    assert_eq!(store.locales_path, "");
    assert_eq!(store.temp_path, "");
    let store = AnLocales::new_with_paths(
        "/usr/share/anlocales/locales".to_string(),
        "/usr/share/anlocales/temp".to_string(),
        settings("a", "b"),
    );
    assert_eq!(store.locales_path, "/usr/share/anlocales/locales");
    assert_eq!(store.temp_path, "/usr/share/anlocales/temp");
    assert!(store.cache.is_empty());
}

#[test]
fn string_table_keeps_one_entry_per_key() {
    let mut strings = StringTable::new();
    assert_eq!(strings.len(), 0);
    assert!(strings.get("a").is_none());
    strings.insert("a".to_string(), vec!["1".to_string()]);
    strings.insert("b".to_string(), vec!["2".to_string(), "3".to_string()]);
    strings.insert("a".to_string(), vec!["4".to_string()]);
    assert_eq!(strings.len(), 2);
    assert_eq!(strings.get("a"), Some(&vec!["4".to_string()]));
    assert_eq!(strings.get("b"), Some(&vec!["2".to_string(), "3".to_string()]));
    assert_eq!(strings.find("b"), Some(1));
    assert_eq!(strings.find("c"), None);
    assert!(strings.is_valid());
    strings.insert("c".to_string(), vec![]);
    assert!(!strings.is_valid());
}

#[test]
fn string_table_with_a_key_twice_is_refused() {
    let mut strings = StringTable::new();
    strings.insert("a".to_string(), vec!["1".to_string()]);
    strings.insert("b".to_string(), vec!["2".to_string()]);
    assert!(strings.is_valid());
    strings.entries.push(anlocales::table::Entry {
        key: "a".to_string(),
        forms: vec!["3".to_string()],
    });
    assert!(!strings.is_valid());
    assert_eq!(strings.get("a"), Some(&vec!["1".to_string()]));
    assert_eq!(Locale::load("x", good_data(), strings).err(), Some(LoadError::InvalidStrings));
}

#[test]
fn data_model_validity() {
    assert!(good_data().is_valid());
    assert!(data(vec![], 7, 12).is_valid());
    assert!(data(vec![3, 2, 255], 7, 12).is_valid());
    assert!(!data(vec![3, 0, 2], 7, 12).is_valid());
    assert!(!data(vec![3], 0, 12).is_valid());
    assert!(!data(vec![3], 7, 11).is_valid());
    assert!(good_data().LC_TIME.is_valid());
    assert!(good_data().LC_NUMERIC.is_valid());
}
