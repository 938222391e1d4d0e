//! Verified core of an n-body particle simulation: the bookkeeping, parsing and
//! selection logic that surrounds the floating-point physics.

pub mod config;
pub mod mov_avg;
pub mod particle;
pub mod start_screen;
mod text;
