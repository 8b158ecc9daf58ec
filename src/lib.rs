//! ShiShuA: a fast, deterministic, non-cryptographic pseudorandom byte
//! generator built from lane-wise 64-bit vector operations.
//!
//! - `software_simd`: the lane vector and its operations.
//! - `state`: seed expansion and the round function.
//! - `rng`: the byte stream over the rounds.
//! - `laws`: what holds of the stream for every seed and every way of
//!   reading it.
#![allow(non_camel_case_types)]

pub mod laws;
pub mod rng;
pub mod software_simd;
pub mod state;

pub use crate::rng::ShiShuARng;
pub use crate::software_simd::{u32x8, u64x4, SoftwareSimd};
pub use crate::state::ShiShuAState;
