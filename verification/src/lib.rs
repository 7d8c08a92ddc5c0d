//! Encoder for a human-friendly JSON-superset notation.
//!
//! Values are encoded with unquoted strings where the grammar allows it,
//! multi-line block strings for text that would otherwise need heavy
//! escaping, and newline-separated container entries with
//! indentation-driven formatting.

pub mod classify;
pub mod fmt;
pub mod num;
pub mod quote;
pub mod value;
pub mod ser;

pub use fmt::Formatter;
pub use fmt::HjsonFormatter;
pub use fmt::indent;
pub use num::fmt_i64;
pub use num::fmt_small;
pub use num::fmt_u64;
pub use quote::escape_bytes;
pub use quote::escape_char;
pub use quote::escape_key;
pub use quote::ml_str;
pub use quote::quote_str;
pub use ser::Serializer;
pub use ser::to_string;
pub use ser::to_vec;
pub use value::Error;
pub use value::FloatText;
pub use value::Value;
