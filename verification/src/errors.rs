use vstd::prelude::*;

verus! {

/// Why a load, or one file of it, was given up.
#[derive(Debug, Clone, Copy, PartialEq, Eq, Structural)]
pub enum Error {
    /// The document is empty, is not structured data, or lists no timings.
    MalformedInput,
    /// Neither the header nor the file name yields a date.
    UnresolvableDate,
    /// No run at all was loaded.
    NoData,
    /// The runs are spread over time in a way the summary cannot handle.
    InternalInvariantViolation,
}

impl Error {
    /// Whether the error ends the whole load, rather than one file of it.
    pub fn is_fatal(&self) -> (fatal: bool)
        ensures
            fatal == (*self == Error::NoData || *self == Error::InternalInvariantViolation),
    {
        match self {
            Error::MalformedInput => false,
            Error::UnresolvableDate => false,
            Error::NoData => true,
            Error::InternalInvariantViolation => true,
        }
    }
}

} // verus!
