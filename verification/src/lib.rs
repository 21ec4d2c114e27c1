//! A peer-to-peer messenger's durable messaging core: a persistent outbound
//! queue with two priority lanes, exponential backoff and a dead-letter sink;
//! the signed, encrypted, replay-protected envelope that carries each message;
//! and the decisions of the worker that sends and the handler that receives.
//!
//! Everything here is verified but the declarations that state what is
//! trusted of the libraries underneath: the key/value store, the ciphers, the
//! clock and a few text functions.

pub mod api;
pub mod bytes;
pub mod clock;
pub mod codec;
pub mod config;
pub mod crypto;
pub mod error;
pub mod hexcode;
pub mod identity;
pub mod ids;
pub mod messaging;
pub mod network;
pub mod ops;
pub mod settings;
pub mod storage;
pub mod text;
pub mod ui;
