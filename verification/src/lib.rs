//! Locale-aware formatting of numbers, money and dates, string collation
//! and plural selection, with a store that keeps loaded locales by name.

pub mod binary64;
pub mod collate;
pub mod data_format;
pub mod date;
pub mod decimal;
pub mod grouping;
pub mod locale;
pub mod money;
pub mod numeric;
pub mod plural;
pub mod store;
pub mod table;
pub mod text;

pub use data_format::DataFormat;
pub use locale::{LoadError, Locale};
pub use store::{AnLocales, Settings};
