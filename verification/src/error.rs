//! The error taxonomy of the library: a source file referenced by a
//! coverage record that is not available, a rule name that does not
//! exist, and a malformed record in an input report.  Read and write
//! failures of the surrounding process are reported by the caller that
//! performs the input and output.

use vstd::prelude::*;

verus! {

/// What can go wrong inside the fix pipeline.
#[derive(Debug, Clone, PartialEq)]
pub enum Error {
    /// A coverage record refers to a source file that was not provided.
    SourceFileNotFound(String),
    /// A rule with this name does not exist.
    InvalidRuleName(String),
    /// An input report holds a record that does not parse; the detail is
    /// the offending record's text.
    FormatError(String),
}

impl Error {
    /// A human-readable description of the error.
    pub fn message(&self) -> (r: String)
        ensures
            match self {
                Error::SourceFileNotFound(p) => r@ == "Source file not found: "@ + p@,
                Error::InvalidRuleName(n) => r@ == "Invalid rule name: "@ + n@,
                Error::FormatError(d) => r@ == "Malformed record: "@ + d@,
            },
    {
        match self {
            Error::SourceFileNotFound(p) => {
                let mut s = String::new();
                s.append("Source file not found: ");
                s.append(p.as_str());
                proof {
                    assert(s@ =~= "Source file not found: "@ + p@);
                }
                s
            },
            Error::InvalidRuleName(n) => {
                let mut s = String::new();
                s.append("Invalid rule name: ");
                s.append(n.as_str());
                proof {
                    assert(s@ =~= "Invalid rule name: "@ + n@);
                }
                s
            },
            Error::FormatError(d) => {
                let mut s = String::new();
                s.append("Malformed record: ");
                s.append(d.as_str());
                proof {
                    assert(s@ =~= "Malformed record: "@ + d@);
                }
                s
            },
        }
    }
}

} // verus!
