//! The errors of the library.

use crate::diagnostics::{diagnostics_text, into_diagnostics, SyntaxError};
use vstd::prelude::*;
use vstd::string::StringExecFns;

verus! {

/// A parsed program that is no keymap.
#[derive(Clone, Copy, Debug, PartialEq, Eq, Structural)]
pub enum KeymapError {
    /// The program has no layer.
    NoLayers,
    /// A layer has no row.
    NoRows,
    /// Two layers differ in their number of rows.
    RowCountMismatch,
}

impl KeymapError {
    /// What the error says.
    pub open spec fn spec_message(self) -> Seq<char> {
        match self {
            KeymapError::NoLayers => "No layers"@,
            KeymapError::NoRows => "No rows"@,
            KeymapError::RowCountMismatch => "All layers must have the same number of keys"@,
        }
    }

    /// What the error says.
    pub fn message(&self) -> (text: &'static str)
        ensures
            text@ == self.spec_message(),
    {
        match self {
            KeymapError::NoLayers => "No layers",
            KeymapError::NoRows => "No rows",
            KeymapError::RowCountMismatch => "All layers must have the same number of keys",
        }
    }
}

/// Why no keymap came of a text.
#[derive(Debug, PartialEq, Eq)]
pub enum MyError {
    /// The text is no sentence of the grammar.
    ParseError(SyntaxError),
    /// The text is a program, but the program is no keymap.
    KeymapError(KeymapError),
}

impl MyError {
    /// What the error says.
    pub open spec fn spec_message(self) -> Seq<char> {
        match self {
            MyError::ParseError(e) => diagnostics_text(e@),
            MyError::KeymapError(e) => e.spec_message(),
        }
    }

    /// What the error says, in one line.
    pub fn message(&self) -> (text: String)
        ensures
            text@ == self.spec_message(),
    {
        match self {
            MyError::ParseError(e) => into_diagnostics(e),
            MyError::KeymapError(e) => String::from_str(e.message()),
        }
    }
}

impl From<SyntaxError> for MyError {
    fn from(e: SyntaxError) -> (ret: MyError) {
        MyError::ParseError(e)
    }
}

impl vstd::std_specs::convert::FromSpecImpl<SyntaxError> for MyError {
    open spec fn obeys_from_spec() -> bool {
        true
    }

    open spec fn from_spec(e: SyntaxError) -> MyError {
        MyError::ParseError(e)
    }
}

impl From<KeymapError> for MyError {
    fn from(e: KeymapError) -> (ret: MyError) {
        MyError::KeymapError(e)
    }
}

impl vstd::std_specs::convert::FromSpecImpl<KeymapError> for MyError {
    open spec fn obeys_from_spec() -> bool {
        true
    }

    open spec fn from_spec(e: KeymapError) -> MyError {
        MyError::KeymapError(e)
    }
}

} // verus!
