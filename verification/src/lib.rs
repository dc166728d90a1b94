//! Generates device configuration text from a declarative template.
//!
//! A template is an ordered sequence of lines. Structural lines (`!` or
//! `#`) carry loop markers or comments; content lines hold `$name`
//! (required) and `?name` (optional) placeholders, each optionally
//! annotated with a value kind. `parse` extracts the typed schema from
//! the text, the builder methods bind values to it fail-fast, and
//! `compile` substitutes the bound values back into the text, expanding
//! each loop body once per appended list element.
//!
//! Every public operation carries a contract against a specification-level
//! model: scopes as maps from names to modelled values, lines as character
//! sequences, and compilation as a recursive interpreter over both.
pub mod error;
pub mod text;
pub mod ip;
pub mod value;
pub mod parse;
pub mod laws;
