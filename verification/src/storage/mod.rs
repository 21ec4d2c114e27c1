//! Everything that is kept on disk: the key/value trees, the records in them,
//! and the key that seals them.

use vstd::prelude::*;

pub mod at_rest;
pub mod backoff;
pub mod contacts;
pub mod kv;
pub mod lanes;
pub mod nonce_store;
pub mod queue;
pub mod queue_laws;
pub mod record;

verus! {

/// What can go wrong in the storage layer.
#[derive(Debug)]
pub enum StorageError {
    /// The key/value store failed.
    Db(sled::Error),
    /// Stored bytes are not the record they should be.
    Serialization(String),
    /// A value offered for storing is not acceptable.
    Validation(String),
    /// Sealing or opening failed.
    Crypto(String),
    ContactNotFound(String),
}

impl StorageError {
    /// This is a crypto failure with the given text.
    pub open spec fn is_crypto(self, text: Seq<char>) -> bool {
        self matches StorageError::Crypto(m) && m@ == text
    }

    /// This is a serialization failure with the given text.
    pub open spec fn is_serialization(self, text: Seq<char>) -> bool {
        self matches StorageError::Serialization(m) && m@ == text
    }

    /// This is a validation failure with the given text.
    pub open spec fn is_validation(self, text: Seq<char>) -> bool {
        self matches StorageError::Validation(m) && m@ == text
    }

    /// A crypto failure with the given text.
    pub fn crypto(text: &str) -> (e: StorageError)
        ensures
            e.is_crypto(text@),
    {
        StorageError::Crypto(text.to_owned())
    }

    /// A serialization failure with the given text.
    pub fn serialization(text: &str) -> (e: StorageError)
        ensures
            e.is_serialization(text@),
    {
        StorageError::Serialization(text.to_owned())
    }

    /// A validation failure with the given text.
    pub fn validation(text: &str) -> (e: StorageError)
        ensures
            e.is_validation(text@),
    {
        StorageError::Validation(text.to_owned())
    }
}

} // verus!
