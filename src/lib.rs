//! Packing of a population of small directed graphs into rectangular,
//! fixed-stride texel buffers.

pub mod address;
pub mod encode;
pub mod float_bits;
pub mod grid;
pub mod layout;
pub mod population;
