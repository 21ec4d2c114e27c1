//! The errors that the facade hands to its callers.

use vstd::prelude::*;
use crate::crypto::CryptoError;
use crate::storage::StorageError;

verus! {

/// Whatever can go wrong, by the part it went wrong in.
#[derive(Debug)]
pub enum PigeonError {
    Crypto(CryptoError),
    Storage(StorageError),
    Config(String),
    Serialization(String),
}

impl PigeonError {
    /// This is a configuration failure with the given text.
    pub open spec fn is_config(self, text: Seq<char>) -> bool {
        self matches PigeonError::Config(m) && m@ == text
    }

    /// This is a validation failure of the storage layer with the given text.
    pub open spec fn is_validation(self, text: Seq<char>) -> bool {
        self matches PigeonError::Storage(e) && e.is_validation(text)
    }

    /// A configuration failure with the given text.
    pub fn config(text: &str) -> (e: PigeonError)
        ensures
            e.is_config(text@),
    {
        PigeonError::Config(text.to_owned())
    }

    /// A validation failure of the storage layer with the given text.
    pub fn validation(text: &str) -> (e: PigeonError)
        ensures
            e.is_validation(text@),
    {
        PigeonError::Storage(StorageError::validation(text))
    }
}

/// What a result of the facade says of the storage layer: the same value,
/// or the storage layer's own error; nothing where the error is not the
/// storage layer's.
pub open spec fn storage_side<T>(r: Result<T, PigeonError>) -> Option<Result<T, StorageError>> {
    match r {
        Ok(x) => Some(Ok(x)),
        Err(PigeonError::Storage(e)) => Some(Err(e)),
        Err(_) => None,
    }
}

/// A result of the storage layer as the facade hands it on.
pub fn from_storage<T>(r: Result<T, StorageError>) -> (out: Result<T, PigeonError>)
    ensures
        storage_side(out) == Some(r),
{
    match r {
        Ok(x) => Ok(x),
        Err(e) => Err(PigeonError::Storage(e)),
    }
}

} // verus!
