//! Streaming query execution for a foreign caller: the lifecycle of a
//! connection handle, the protocol by which a statement's result is turned
//! into a sequence of self-contained units, and the two encodings of those
//! units (delimited text and MessagePack records).
//!
//! The driver itself is not part of this crate. Whoever talks to it reports
//! what it answered, as plain values, and is told what to do next.

pub mod ffi;
pub mod odbc;
