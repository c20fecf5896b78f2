//! Binary codecs for OpenType font tables.
//!
//! Each codec is stated twice: as a mathematical function on byte sequences
//! and as executable code that is proved to compute that function.

pub mod cursor;
pub mod error;
pub mod layout;
pub mod maxp;
pub mod otvar;

pub use layout::classdef::{decode_classdef, encode_classdef};
pub use otvar::packeddeltas::encode_packed_deltas;
pub use otvar::packeddeltas::from_bytes as decode_packed_deltas;
