//! Decoder for the `wtns` binary witness container.
//!
//! A witness container is a section-based binary buffer produced by an
//! external witness-computation engine: a fixed preamble (magic tag, version,
//! section count) followed by tagged, length-prefixed sections.  The decoder
//! validates the preamble, scans the sections, and reconstructs the ordered
//! vector of fixed-width little-endian field elements held by the data
//! section.  Malformed or truncated input always yields a typed
//! [`errors::DecodeError`], never a panic or an out-of-bounds read.

pub mod bigints;
pub mod cursor;
pub mod errors;
pub mod inputs;
pub mod laws;
pub mod model;
pub mod scanner;

pub use bigints::{parse_witness_to, parse_witness_to_bigints};
pub use errors::DecodeError;
pub use inputs::convert_inputs_to_json;
pub use scanner::decode_data_chunks;
