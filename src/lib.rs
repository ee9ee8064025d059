//! A small pattern language that scores how strongly a document, given as
//! its lines, matches a rule built from regular expressions.
//!
//! `rule` compiles the text of a rule into a `Rule`; `Rule::occurances`
//! counts how many times it occurs in a document.

pub mod compile;
pub mod matcher;
pub mod rule;
pub mod syntax;

pub use compile::{composed_text, lower, rule};
pub use matcher::{Matcher, RegexError};
pub use rule::Rule;
pub use syntax::{parse, CompileError, ErrorKind, Literal, RegexPattern};
