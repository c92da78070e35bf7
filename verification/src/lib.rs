//! Auditing the licenses of a project's dependencies.
//!
//! A dependency declares its license as an expression: identifiers such as
//! `MIT`, joined by `AND` and `OR` (or a slash), grouped by parentheses. An
//! expression is checked against the list of licenses that a project allows.
//! The operators are read from left to right and neither binds tighter than
//! the other, so `A AND B OR C` is `(A AND B) OR C`; only parentheses group
//! otherwise.
//!
//! - [`tokens`] cuts the text of an expression into its lexical units,
//! - [`parser`] builds the tree of an expression from them,
//! - [`eval`] decides whether a tree is satisfied by a list of licenses,
//! - [`license`] puts the three together,
//! - [`laws`], [`parse_laws`] and [`token_laws`] state what holds of every
//!   expression and every list, of every tree, and of every text,
//! - [`check`], [`init`], [`generate`] and [`highlight`] hold what the audit,
//!   the first setup and the report decide, and [`notice_toml`] the
//!   configuration they read,
//! - [`pattern`] is the boundary to the `regex` crate, and [`text`] holds the
//!   helpers that work on string slices.
//!
//! Every function is verified against its contract. Two things are taken on
//! trust and named rather than defined: where `regex` finds a pattern in a
//! text ([`pattern::regex_find_all`]) and which characters are white space
//! ([`text::is_white_space`]).

pub mod check;
pub mod eval;
pub mod generate;
pub mod highlight;
pub mod init;
pub mod laws;
pub mod license;
pub mod notice_toml;
pub mod parse_laws;
pub mod parser;
pub mod pattern;
pub mod text;
pub mod token_laws;
pub mod tokens;
