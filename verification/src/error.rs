//! Why a listing fails.

use vstd::prelude::*;
use vstd::string::StringExecFns;

verus! {

/// Why a listing could not be made.
#[derive(Debug, PartialEq, Eq)]
pub enum ListError {
    /// A directory or its entries could not be read.
    Io { message: String },
    /// The filter is no well-formed glob.
    InvalidFilterPattern { pattern: String, detail: String },
}

impl ListError {
    /// The error as one line of text.
    pub open spec fn message_text(self) -> Seq<char> {
        match self {
            ListError::Io { message } => message@,
            ListError::InvalidFilterPattern { pattern, detail } => "Invalid glob: "@ + pattern@
                + ": "@ + detail@,
        }
    }

    /// The error as one line of text.
    pub fn message(&self) -> (r: String)
        ensures
            r@ == self.message_text(),
    {
        match self {
            ListError::Io { message } => message.clone(),
            ListError::InvalidFilterPattern { pattern, detail } => {
                let mut out = String::from_str("Invalid glob: ");
                out.append(pattern.as_str());
                out.append(": ");
                out.append(detail.as_str());
                out
            },
        }
    }
}

} // verus!
