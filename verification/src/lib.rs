//! Variable collection and merging engine for a template preprocessor:
//! an escape-aware tokenizer, a typed-value coercion engine, and a
//! precedence-ordered namespace assembler.

pub mod coerce;
pub mod config;
pub mod decimal;
pub mod error;
pub mod json;
pub mod namespace;
pub mod output;
pub mod platform;
pub mod processing;
pub mod rendering;
pub mod text;
pub mod tokenize;
pub mod unescape;
pub mod value;
pub mod variables;

pub use coerce::string_to_typed_value;
pub use config::ConfigFile;
pub use error::ShinkansenError;
pub use namespace::Namespace;
pub use tokenize::split_unescaped;
pub use unescape::unescape_value;
pub use value::TypedValue;
pub use value::VModel;
