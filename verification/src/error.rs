//! The single error shape of the converter: a free-text message plus the
//! 1-indexed stream position at the point of failure. Errors propagate
//! fail-fast: any nested failure aborts the whole conversion.

use vstd::prelude::*;
use vstd::string::*;

use crate::putback::PutBackChars;
use crate::strutil::{spec_digits, usize_string};

verus! {

#[derive(Debug)]
pub struct ParseError {
    pub comment: String,
    pub line: usize,
    pub column: usize,
}

impl ParseError {
    /// An error at the stream's current position.
    pub fn from_str(chars: &PutBackChars, message: &str) -> (r: Self)
        ensures
            r.comment@ == message@,
            r.line == chars.line_number,
            r.column == chars.column_number,
    {
        ParseError {
            comment: String::from_str(message),
            line: chars.line_number,
            column: chars.column_number,
        }
    }

    /// An error at the stream's current position, with an owned message.
    pub fn from_string(chars: &PutBackChars, message: String) -> (r: Self)
        ensures
            r.comment@ == message@,
            r.line == chars.line_number,
            r.column == chars.column_number,
    {
        ParseError { comment: message, line: chars.line_number, column: chars.column_number }
    }

    /// An error with no position (line and column 0), for failures that are
    /// not tied to a place in the input.
    pub fn empty(message: &str) -> (r: Self)
        ensures
            r.comment@ == message@,
            r.line == 0,
            r.column == 0,
    {
        ParseError { comment: String::from_str(message), line: 0, column: 0 }
    }

    /// The diagnostic as text: `line:column. message`.
    pub fn formatted(&self) -> (r: String)
        ensures
            r@ == spec_digits(self.line as int) + ":"@ + spec_digits(self.column as int) + ". "@
                + self.comment@,
    {
        let mut s = usize_string(self.line);
        s.append(":");
        let col = usize_string(self.column);
        s.append(col.as_str());
        s.append(". ");
        s.append(self.comment.as_str());
        s
    }
}

} // verus!
