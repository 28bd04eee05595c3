//! What a reading reports when it fails.
//!
//! A failure names its kind and the place where it was met: the line, and
//! the field within the line. The kind says what was expected there, and
//! [`ParseError::found`] gives what the text holds there.

use crate::lines::{logical_lines, split_lines};
use crate::text::texts;
use crate::tokens::{split_tokens, tokens};
use vstd::prelude::*;

verus! {

/// The ways in which the description of a circuit can be wrong.
#[derive(Clone, Copy, Debug, PartialEq, Eq, Structural)]
pub enum ErrorKind {
    /// The text has fewer than three lines that are not blank: `expected`
    /// is 3 and `found` the number of such lines. Or a port line declares
    /// `expected` ports and `found` widths follow.
    StructuralError { expected: u32, found: usize },
    /// A field that should hold a number is missing, is not a number, or
    /// does not fit in 32 bits.
    MalformedNumber,
    /// A gate line does not declare the number of inputs or of outputs
    /// that its tag requires; the field should read `expected`.
    ArityMismatch { expected: u32 },
    /// The tag names a gate of the format that this parser does not build.
    UnsupportedGateType,
    /// The tag names no gate of the format, or the line has no tag.
    UnknownGateType,
}

/// A failure within one line.
#[derive(Clone, Copy, Debug, PartialEq, Eq, Structural)]
pub struct LineError {
    pub kind: ErrorKind,
    /// The position of the offending field among the fields of the line,
    /// counted from zero.
    pub field: usize,
}

/// A failure within a sequence of lines.
#[derive(Clone, Copy, Debug, PartialEq, Eq, Structural)]
pub struct ParseError {
    pub kind: ErrorKind,
    /// The position of the offending line among the lines that are not
    /// blank, counted from zero. Where lines are missing, the number of
    /// lines that were found.
    pub line: usize,
    /// The position of the offending field among the fields of that line,
    /// counted from zero.
    pub field: usize,
}

/// A failure of kind `kind` at field `field` of a line.
pub open spec fn fails<T>(kind: ErrorKind, field: int) -> Result<T, LineError> {
    Err(LineError { kind, field: field as usize })
}

/// A result with its value replaced by the value's view.
pub open spec fn viewed<T: View, E>(r: Result<T, E>) -> Result<T::V, E> {
    match r {
        Ok(v) => Ok(v@),
        Err(e) => Err(e),
    }
}

/// Field `field` of line `line` of a text, if the text has such a line and
/// the line such a field. Blank lines are not counted.
pub open spec fn field_at(text: Seq<char>, line: int, field: int) -> Option<Seq<char>> {
    let lines = logical_lines(text);
    if 0 <= line < lines.len() && 0 <= field < tokens(lines[line]).len() {
        Some(tokens(lines[line])[field])
    } else {
        None
    }
}

impl LineError {
    /// The same failure, as one in line `line` of a sequence of lines.
    pub open spec fn on_line(self, line: int) -> ParseError {
        ParseError { kind: self.kind, line: line as usize, field: self.field }
    }

    /// The same failure, as one in line `line` of a sequence of lines.
    pub fn at_line(self, line: usize) -> (e: ParseError)
        ensures
            e == self.on_line(line as int),
    {
        ParseError { kind: self.kind, line, field: self.field }
    }
}

impl ParseError {
    /// What `text` holds in the place that the failure points at; `None`
    /// where the line or the field is missing.
    pub fn found<'a>(&self, text: &'a str) -> (r: Option<&'a str>)
        ensures
            match r {
                Some(s) => field_at(text@, self.line as int, self.field as int) == Some(s@),
                None => field_at(text@, self.line as int, self.field as int) is None,
            },
    {
        let lines = split_lines(text);
        if self.line >= lines.len() {
            return None;
        }
        let fields = split_tokens(lines[self.line]);
        assert(texts(lines@)[self.line as int] == lines@[self.line as int]@);
        if self.field >= fields.len() {
            return None;
        }
        assert(texts(fields@)[self.field as int] == fields@[self.field as int]@);
        Some(fields[self.field])
    }
}

} // verus!
