//! Errors of the store.
use vstd::prelude::*;

verus! {

/// An error of the store: what was not found, what input was rejected, what
/// stored data is corrupt, or what input/output failed.
#[derive(Debug, Clone, PartialEq, Eq)]
pub enum StoreError {
    NotFound(String),
    InvalidInput(String),
    Corrupt(String),
    Io(String),
}

/// The mathematical form of a [`StoreError`].
pub enum SpecStoreError {
    NotFound(Seq<char>),
    InvalidInput(Seq<char>),
    Corrupt(Seq<char>),
    Io(Seq<char>),
}

impl View for StoreError {
    type V = SpecStoreError;

    open spec fn view(&self) -> SpecStoreError {
        match self {
            StoreError::NotFound(m) => SpecStoreError::NotFound(m@),
            StoreError::InvalidInput(m) => SpecStoreError::InvalidInput(m@),
            StoreError::Corrupt(m) => SpecStoreError::Corrupt(m@),
            StoreError::Io(m) => SpecStoreError::Io(m@),
        }
    }
}

/// The error of reading past the end of a payload (what `read_exact` reports).
pub open spec fn eof_error() -> SpecStoreError {
    SpecStoreError::Io("failed to fill whole buffer"@)
}

impl StoreError {
    pub fn eof() -> (e: StoreError)
        ensures
            e@ == eof_error(),
    {
        StoreError::Io(crate::text::owned("failed to fill whole buffer"))
    }

    /// The text of the error.
    pub fn message(&self) -> (r: String)
        ensures
            r@ == match self@ {
                SpecStoreError::NotFound(m) => m,
                SpecStoreError::InvalidInput(m) => m,
                SpecStoreError::Corrupt(m) => m,
                SpecStoreError::Io(m) => m,
            },
    {
        match self {
            StoreError::NotFound(m) => m.clone(),
            StoreError::InvalidInput(m) => m.clone(),
            StoreError::Corrupt(m) => m.clone(),
            StoreError::Io(m) => m.clone(),
        }
    }
}

} // verus!
