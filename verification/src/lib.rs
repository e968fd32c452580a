//! Filters lines of semi-structured text by matching the typed tokens of each
//! line against a filter expression.
pub mod text;
pub mod tokenizer;
pub mod numbers;
pub mod floats;
pub mod dates;
pub mod addresses;
pub mod versions;
pub mod values;
pub mod expression;
pub mod validator;
pub mod parser;
pub mod ansi;
pub mod filter;
pub mod arguments;
pub mod composition;
pub mod comparisons;
