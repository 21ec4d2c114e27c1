//! What the transport carries. The transport itself is outside this crate.

pub mod addr;
pub mod protocol;
pub mod rr;
