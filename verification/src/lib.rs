//! Message contract for a key-value capability provider.
//!
//! The crate defines the operation-name constants and the request/response
//! record types exchanged between a caller and a storage provider, together
//! with a verified encoder and decoder for the self-describing field-map
//! payload that carries each record on the wire.

pub mod keyvalue;
pub mod wire;
