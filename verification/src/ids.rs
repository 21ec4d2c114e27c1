//! Message identifiers.

use vstd::prelude::*;

verus! {

/// A fresh random identifier.
///
/// Trusted: `Uuid::new_v4` of uuid, of which the 16 bytes are taken. Nothing
/// is claimed of the bytes; two calls may differ.
#[verifier::external_body]
pub(crate) fn fresh_id() -> (id: [u8; 16]) {
    *uuid::Uuid::new_v4().as_bytes()
}

} // verus!
