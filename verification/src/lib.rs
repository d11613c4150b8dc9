//! Firmware-update backend core: authenticated envelope codec, key catalog
//! with lifecycle invariants, and the per-datagram operation dispatcher.

pub mod catalog;
pub mod cbor;
pub mod cose;
pub mod cose_handler;
pub mod crypto;
pub mod handler;
pub mod laws;
pub mod operation;
