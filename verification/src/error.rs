//! Why a strike did not happen.

use crate::text::{decimal, push_decimal, push_numeral, upper_hex, zero_padded};
use vstd::prelude::*;
use vstd::string::StringExecFns;

verus! {

/// The failures of a strike.
#[derive(Debug, PartialEq, Eq)]
pub enum StrikeError {
    /// A byte lies above the upper bound.
    ByteOutOfRange { position: usize, value: u8 },
    /// A byte is banned by name.
    ForbiddenByte { position: usize, value: u8, description: String },
    /// The file system refused an operation; the text is its diagnostic.
    FileError(String),
    /// The interpreter could not be started or reported failure.
    ForthError(String),
    /// The interpreter is not installed.
    GforthNotFound,
}

/// A failure with its texts as character sequences.
pub enum StrikeErrorView {
    ByteOutOfRange { position: int, value: u8 },
    ForbiddenByte { position: int, value: u8, description: Seq<char> },
    FileError(Seq<char>),
    ForthError(Seq<char>),
    GforthNotFound,
}

impl View for StrikeError {
    type V = StrikeErrorView;

    open spec fn view(&self) -> StrikeErrorView {
        match *self {
            StrikeError::ByteOutOfRange { position, value } => StrikeErrorView::ByteOutOfRange {
                position: position as int,
                value,
            },
            StrikeError::ForbiddenByte {
                position,
                value,
                description,
            } => StrikeErrorView::ForbiddenByte {
                position: position as int,
                value,
                description: description@,
            },
            StrikeError::FileError(text) => StrikeErrorView::FileError(text@),
            StrikeError::ForthError(text) => StrikeErrorView::ForthError(text@),
            StrikeError::GforthNotFound => StrikeErrorView::GforthNotFound,
        }
    }
}

/// The outcome of a gate or of a strike, with the error by its view.
pub open spec fn verdict_view(verdict: Result<(), StrikeError>) -> Result<(), StrikeErrorView> {
    match verdict {
        Ok(()) => Ok(()),
        Err(e) => Err(e@),
    }
}

impl StrikeErrorView {
    /// The sentence shown to the user.
    pub open spec fn message(self) -> Seq<char>
        recommends
            self matches StrikeErrorView::ByteOutOfRange { position, .. } ==> position >= 0,
            self matches StrikeErrorView::ForbiddenByte { position, .. } ==> position >= 0,
    {
        match self {
            StrikeErrorView::ByteOutOfRange { position, value } => "Byte "@ + decimal(value as nat)
                + " at position "@ + decimal(position as nat) + " exceeds ASCII limit (127)"@,
            StrikeErrorView::ForbiddenByte { position, value, description } => "Forbidden byte "@
                + decimal(value as nat) + " (0x"@ + zero_padded(upper_hex(value as nat), 2)
                + ") at position "@ + decimal(position as nat) + ": "@ + description,
            StrikeErrorView::FileError(text) => "File operation failed: "@ + text,
            StrikeErrorView::ForthError(text) => "Forth kernel execution failed: "@ + text,
            StrikeErrorView::GforthNotFound => "Gforth not found. Please install gforth."@,
        }
    }
}

impl StrikeError {
    /// A second value of the same error.
    pub fn duplicate(&self) -> (copy: StrikeError)
        ensures
            copy@ == self@,
    {
        match self {
            StrikeError::ByteOutOfRange { position, value } => StrikeError::ByteOutOfRange {
                position: *position,
                value: *value,
            },
            StrikeError::ForbiddenByte { position, value, description } => StrikeError::ForbiddenByte {
                position: *position,
                value: *value,
                description: description.clone(),
            },
            StrikeError::FileError(diagnostic) => StrikeError::FileError(diagnostic.clone()),
            StrikeError::ForthError(diagnostic) => StrikeError::ForthError(diagnostic.clone()),
            StrikeError::GforthNotFound => StrikeError::GforthNotFound,
        }
    }

    /// The sentence shown to the user.
    pub fn message(&self) -> (text: String)
        ensures
            text@ == self@.message(),
    {
        match self {
            StrikeError::ByteOutOfRange { position, value } => {
                let mut text = String::from_str("Byte ");
                push_decimal(&mut text, *value as usize);
                text.append(" at position ");
                push_decimal(&mut text, *position);
                text.append(" exceeds ASCII limit (127)");
                text
            },
            StrikeError::ForbiddenByte { position, value, description } => {
                let mut text = String::from_str("Forbidden byte ");
                push_decimal(&mut text, *value as usize);
                text.append(" (0x");
                push_numeral(&mut text, *value as usize, 16, true, 2);
                text.append(") at position ");
                push_decimal(&mut text, *position);
                text.append(": ");
                text.append(description.as_str());
                text
            },
            StrikeError::FileError(diagnostic) => {
                let mut text = String::from_str("File operation failed: ");
                text.append(diagnostic.as_str());
                text
            },
            StrikeError::ForthError(diagnostic) => {
                let mut text = String::from_str("Forth kernel execution failed: ");
                text.append(diagnostic.as_str());
                text
            },
            StrikeError::GforthNotFound => String::from_str(
                "Gforth not found. Please install gforth.",
            ),
        }
    }
}

} // verus!
