use vstd::prelude::*;

verus! {

/// The errors this library reports. Header parse failures and unknown
/// formats abort a run; per-entry decode failures degrade to dropped
/// entries and never surface here.
#[derive(Debug)]
pub enum Error {
    /// Open, map or read failure, with the offending path.
    Io(String),
    /// Magic mismatch, truncated header or inconsistent references.
    Format(String),
    /// Unknown or unsupported architecture or container.
    Unsupported(String),
    /// No symbol matched the query.
    Query(String),
    /// Invalid configuration, such as an unrecognized symbol-source name.
    Config(String),
}

impl Error {
    /// The human-readable message carried by the error.
    pub fn message(&self) -> (r: &String)
        ensures
            r@ == self.spec_message(),
    {
        match self {
            Error::Io(m) => m,
            Error::Format(m) => m,
            Error::Unsupported(m) => m,
            Error::Query(m) => m,
            Error::Config(m) => m,
        }
    }

    pub open spec fn spec_message(&self) -> Seq<char> {
        match self {
            Error::Io(m) => m@,
            Error::Format(m) => m@,
            Error::Unsupported(m) => m@,
            Error::Query(m) => m@,
            Error::Config(m) => m@,
        }
    }
}

} // verus!
