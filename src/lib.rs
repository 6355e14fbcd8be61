//! Conversion between dynamically typed host values and JSON text.
//!
//! The encoder turns a `HostValue` into a JSON tree under the policies of
//! `Options` and prints it; the decoder parses JSON text and rebuilds host
//! values, recognising the reversible byte-sequence marker.

pub mod json;
pub mod text;
pub mod host;
pub mod encode;
pub mod decode;
pub mod round_trip;
