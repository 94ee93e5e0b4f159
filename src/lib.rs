//! KZG polynomial commitments over BLS12-381, the radix-2 FFT they rest on,
//! and a small arithmetic-circuit model with selector columns.

pub mod circuit;
pub mod field;
pub mod fft;
pub mod poly;
pub mod group;
pub mod kzg;
