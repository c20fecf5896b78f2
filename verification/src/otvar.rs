//! Tables of OpenType font variations.

pub mod packeddeltas;
