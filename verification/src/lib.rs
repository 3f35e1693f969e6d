//! Recursive-descent parsers for a small subset of HTML and of CSS.
//!
//! The crate turns raw markup text into structured in-memory trees: the HTML
//! parser builds a DOM tree of element and text nodes, and the CSS parser
//! builds a stylesheet of rules whose selectors are ordered by specificity.
//! Both parsers share one scanning primitive, the [`cursor::Cursor`].
//! Invalid input never panics: every grammar violation is reported as a
//! [`ParseError`].

use vstd::prelude::*;

pub mod cursor;
pub mod dom;
pub mod html_parser;
pub mod css_parser;

verus! {

/// The ways a parse can fail.  Every error is fatal to the enclosing parse
/// call: there is no recovery and no partial result.
#[derive(Debug, Clone, Copy, PartialEq, Eq, Structural)]
pub enum ParseError {
    /// A read needed at least one more character but the input was exhausted.
    UnexpectedEndOfInput,
    /// A structural character (such as `>`, `{`, `:`, `;` or a quote) was
    /// required and a different character was found.
    UnexpectedCharacter,
    /// A length value's unit was not among the supported set.
    UnrecognizedUnit,
    /// A digit run did not form a valid number, or a hex pair was malformed.
    InvalidNumericLiteral,
    /// An element's closing tag name differed from its opening tag name.
    MismatchedTag,
}

} // verus!
