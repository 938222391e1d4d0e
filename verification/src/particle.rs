//! Particles and their random generators.

pub mod belt_random;
