//! Decoder for the response side of the Cassandra native protocol (v4).
//!
//! The crate turns raw frame-body bytes into structured values: a typed
//! error report for ERROR frames, and typed CQL values for result columns.
//! Every decoder is a pure function over the byte buffer; malformed input
//! is reported as a typed [`error::DecodeError`], never a panic.

pub mod consistency;
pub mod cursor;
pub mod data_serialization_types;
pub mod error;
pub mod frame_error;
pub mod types;
pub mod wire;
