//! The closed set of errors that the fuzzing core reports.
use vstd::prelude::*;
use vstd::string::*;

verus! {

/// Every error kind carries a human-readable description, apart from
/// `Compression` and `ShuttingDown`, which say everything by their name.
#[derive(Debug)]
pub enum Error {
    /// Encoder or decoder failure.
    Serialize(String),
    /// Transport compression failure.
    Compression,
    /// Filesystem I/O failure.
    File(String),
    /// A value that was required to be set was absent.
    EmptyOptional(String),
    /// A corpus or metadata lookup missed.
    KeyNotFound(String),
    /// A collection was expected to be non-empty.
    Empty(String),
    /// A sequential producer is exhausted.
    IteratorEnd(String),
    /// The capability is not supported.
    NotImplemented(String),
    /// An internal invariant was violated, usually a configuration bug.
    IllegalState(String),
    /// A user-supplied parameter is not valid.
    IllegalArgument(String),
    /// The target harness protocol failed.
    Forkserver(String),
    /// Cooperative termination request.
    ShuttingDown,
    /// Anything else.
    Unknown(String),
}

/// The text that describes an error.
pub open spec fn error_message(e: Error) -> Seq<char> {
    match e {
        Error::Serialize(s) => "Error in Serialization: `"@ + s@ + "`"@,
        Error::Compression => "Error in decompression"@,
        Error::File(s) => "File IO failed: "@ + s@,
        Error::EmptyOptional(s) => "Optional value `"@ + s@ + "` was not set"@,
        Error::KeyNotFound(s) => "Key `"@ + s@ + "` not in Corpus"@,
        Error::Empty(s) => "No items in "@ + s@,
        Error::IteratorEnd(s) => "All elements have been processed in "@ + s@ + " iterator"@,
        Error::NotImplemented(s) => "Not implemented: "@ + s@,
        Error::IllegalState(s) => "Illegal state: "@ + s@,
        Error::IllegalArgument(s) => "Illegal argument: "@ + s@,
        Error::Forkserver(s) => "Forkserver : "@ + s@,
        Error::ShuttingDown => "Shutting down!"@,
        Error::Unknown(s) => "Unknown error: "@ + s@,
    }
}

fn prefixed(prefix: &str, s: &String) -> (r: String)
    ensures
        r@ == prefix@ + s@,
{
    String::from_str(prefix).concat(s.as_str())
}

fn quoted(prefix: &str, s: &String, suffix: &str) -> (r: String)
    ensures
        r@ == prefix@ + s@ + suffix@,
{
    prefixed(prefix, s).concat(suffix)
}

impl Error {
    /// Describes the error in words.
    pub fn message(&self) -> (r: String)
        ensures
            r@ == error_message(*self),
    {
        match self {
            Error::Serialize(s) => quoted("Error in Serialization: `", s, "`"),
            Error::Compression => String::from_str("Error in decompression"),
            Error::File(s) => prefixed("File IO failed: ", s),
            Error::EmptyOptional(s) => quoted("Optional value `", s, "` was not set"),
            Error::KeyNotFound(s) => quoted("Key `", s, "` not in Corpus"),
            Error::Empty(s) => prefixed("No items in ", s),
            Error::IteratorEnd(s) => quoted("All elements have been processed in ", s, " iterator"),
            Error::NotImplemented(s) => prefixed("Not implemented: ", s),
            Error::IllegalState(s) => prefixed("Illegal state: ", s),
            Error::IllegalArgument(s) => prefixed("Illegal argument: ", s),
            Error::Forkserver(s) => prefixed("Forkserver : ", s),
            Error::ShuttingDown => String::from_str("Shutting down!"),
            Error::Unknown(s) => prefixed("Unknown error: ", s),
        }
    }

    /// Builds an `IllegalState` error from a message.
    pub fn illegal_state(msg: &str) -> (r: Error)
        ensures
            r matches Error::IllegalState(s) && s@ == msg@,
    {
        Error::IllegalState(String::from_str(msg))
    }
}

} // verus!
