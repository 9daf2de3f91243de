//! Diagnostics reported by the scanner, the parser and the evaluator.

use vstd::prelude::*;
use vstd::string::*;

use crate::text::{decimal, decimal_string};
use crate::token::{Token, TokenValue, TokenView};

verus! {

/// A diagnostic: where it arose and what went wrong.
#[derive(Debug, PartialEq, Eq)]
pub struct Error {
    pub line: usize,
    pub location: String,
    pub msg: String,
}

/// Mathematical content of an [`Error`].
pub struct ErrorView {
    pub line: usize,
    pub location: Seq<char>,
    pub msg: Seq<char>,
}

impl View for Error {
    type V = ErrorView;

    open spec fn view(&self) -> ErrorView {
        ErrorView { line: self.line, location: self.location@, msg: self.msg@ }
    }
}

/// The views of a sequence of errors.
pub open spec fn error_views(errors: Seq<Error>) -> Seq<ErrorView> {
    Seq::new(errors.len(), |i: int| errors[i]@)
}

/// Location named by a diagnostic about `token`: its lexeme, or `end` for
/// the end-of-input marker.
pub open spec fn location_of(token: TokenView) -> Seq<char> {
    if token.val == TokenValue::EOF {
        "end"@
    } else {
        token.lexeme
    }
}

/// The diagnostic about `token` with message `msg`.
pub open spec fn error_at(token: TokenView, msg: Seq<char>) -> ErrorView {
    ErrorView { line: token.line, location: location_of(token), msg }
}

/// What `str::escape_debug` makes of a text: the same characters, with
/// those that do not print replaced by their escape sequences.
pub uninterp spec fn escape_debug(s: Seq<char>) -> Seq<char>;

/// Escapes the characters of `s` that do not print.
///
/// Wraps `str::escape_debug`, collected into a string; its result is only
/// named, by [`escape_debug`].
#[verifier::external_body]
fn escaped(s: &str) -> (r: String)
    ensures
        r@ == escape_debug(s@),
{
    s.escape_debug().to_string()
}

/// The line printed for a diagnostic.  A diagnostic without a location
/// reads `[line N] Error: MSG`; otherwise the escaped location stands
/// between quotes: `[line N] Error at 'LOC': MSG`.
pub open spec fn report_text(e: ErrorView, escaped: Seq<char>) -> Seq<char> {
    if e.location.len() == 0 {
        "[line "@ + decimal(e.line as nat) + "] Error: "@ + e.msg
    } else {
        "[line "@ + decimal(e.line as nat) + "] Error at '"@ + escaped + "': "@ + e.msg
    }
}

impl Clone for Error {
    fn clone(&self) -> (r: Self)
        ensures
            r@ == self@,
    {
        Error { line: self.line, location: self.location.clone(), msg: self.msg.clone() }
    }
}

impl Error {
    /// The diagnostic on line `line`, located at `location`, that says
    /// `msg`.
    pub fn new(line: usize, location: &str, msg: &str) -> (e: Error)
        ensures
            e@ == (ErrorView { line, location: location@, msg: msg@ }),
    {
        Error { line, location: String::from_str(location), msg: String::from_str(msg) }
    }

    /// The diagnostic about `token` that says `msg`.
    pub fn from_token(token: &Token, msg: &str) -> (e: Error)
        ensures
            e@ == error_at(token@, msg@),
    {
        if token.val == TokenValue::EOF {
            Self::new(token.line, "end", msg)
        } else {
            Self::new(token.line, token.lexeme.as_str(), msg)
        }
    }

    /// The line to print for this diagnostic.
    pub fn report_line(&self) -> (s: String)
        ensures
            s@ == report_text(self@, escape_debug(self.location@)),
    {
        let location = escaped(self.location.as_str());
        self.format_report(location.as_str())
    }

    /// The line to print for this diagnostic, given its location with the
    /// characters that do not print already escaped.
    pub fn format_report(&self, escaped: &str) -> (s: String)
        ensures
            s@ == report_text(self@, escaped@),
    {
        let mut s = String::from_str("[line ");
        let n = decimal_string(self.line);
        s.append(n.as_str());
        if self.location.as_str().unicode_len() == 0 {
            s.append("] Error: ");
        } else {
            s.append("] Error at '");
            s.append(escaped);
            s.append("': ");
        }
        s.append(self.msg.as_str());
        s
    }
}

} // verus!
