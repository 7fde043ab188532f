//! Errors the tokenizer can report.

use crate::types::Span;
use vstd::prelude::*;
use vstd::string::StringExecFns;

verus! {

pub type TokenizeResult<'buf, T> = Result<T, TokenizeError<'buf>>;

/// An error found while turning a buffer into a token stream, with the span
/// it was found at.
#[derive(Debug, Clone)]
pub enum TokenizeError<'buf> {
    BadIdent(String, Span<'buf>),
    BadString(String, Span<'buf>),
    BadNumber(String, Span<'buf>),
    Unexpected(String, Span<'buf>),
}

impl<'buf> TokenizeError<'buf> {
    /// Creates an unexpected character error.
    pub fn unexpected_char(span: Span<'buf>) -> (r: TokenizeError<'buf>)
        ensures
            r matches TokenizeError::Unexpected(m, s) && s == span && m@ == "Unexpected character"@,
    {
        TokenizeError::Unexpected(String::from_str("Unexpected character"), span)
    }

    /// Creates a bad identifier error.
    pub fn bad_ident_numeric_before_alpha(span: Span<'buf>) -> (r: TokenizeError<'buf>)
        ensures
            r matches TokenizeError::BadIdent(m, s) && s == span && m@
                == "Invalid variable name, expected alphabetic or `_` before numeric"@,
    {
        TokenizeError::BadIdent(
            String::from_str("Invalid variable name, expected alphabetic or `_` before numeric"),
            span,
        )
    }

    /// Creates a bad number error.
    pub fn bad_number(span: Span<'buf>) -> (r: TokenizeError<'buf>)
        ensures
            r matches TokenizeError::BadNumber(m, s) && s == span && m@
                == "Invalid number, expected at most one decimal point between decimal digits"@,
    {
        TokenizeError::BadNumber(
            String::from_str("Invalid number, expected at most one decimal point between decimal digits"),
            span,
        )
    }

    /// Creates a bad string error.
    pub fn bad_string_unexpected_eof(span: Span<'buf>) -> (r: TokenizeError<'buf>)
        ensures
            r matches TokenizeError::BadString(m, s) && s == span && m@
                == "Invalid string, expected closing quote, got end of file"@,
    {
        TokenizeError::BadString(
            String::from_str("Invalid string, expected closing quote, got end of file"),
            span,
        )
    }

    /// Creates a bad string error.
    pub fn bad_string_unexpected_eol(span: Span<'buf>) -> (r: TokenizeError<'buf>)
        ensures
            r matches TokenizeError::BadString(m, s) && s == span && m@
                == "Invalid string, expected closing quote, got end of line"@,
    {
        TokenizeError::BadString(
            String::from_str("Invalid string, expected closing quote, got end of line"),
            span,
        )
    }
}

} // verus!
