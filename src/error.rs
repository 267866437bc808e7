use vstd::prelude::*;

verus! {

/// Failures that loading or querying a dataset can report.
#[derive(Debug, Clone, Copy, PartialEq, Eq, Structural)]
pub enum Error {
    /// A backing file is missing or cannot be read.
    Io,
    /// The binary header or root table is absent or malformed.
    Format,
    /// A coded field of a record does not map to a known value.
    Decode,
    /// The chromosome name is not in the chromosome index.
    UnknownChromosome,
    /// The release identifier is not one of the known releases.
    UnknownRelease,
}

impl Error {
    /// Whether the error stems from bad client input rather than from the
    /// server's own data.
    pub fn is_client_error(&self) -> (r: bool)
        ensures
            r == (*self == Error::UnknownChromosome || *self == Error::UnknownRelease),
    {
        match self {
            Error::UnknownChromosome | Error::UnknownRelease => true,
            _ => false,
        }
    }
}

/// Error handed to the web layer.
#[derive(Debug, Clone, Copy, PartialEq, Eq, Structural)]
pub struct MyError {
    pub err: Error,
}

impl MyError {
    pub fn new(err: Error) -> (r: MyError)
        ensures
            r.err == err,
    {
        MyError { err }
    }
}

} // verus!
