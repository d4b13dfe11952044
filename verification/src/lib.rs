//! A discrete-time two-dimensional N-body gravity simulator.
//!
//! All physical quantities are carried as `i128` fixed-point numbers in
//! millionths of the base SI unit (see [`num::SCALE`]): a position component
//! of `1_000_000` is one metre, a mass of `1_000_000` is one kilogram.
//! Arithmetic saturates at the `i128` range instead of wrapping, and square
//! roots round down, so every operation is total and exactly specified.

pub mod num;
pub mod particle;
pub mod sim;
pub mod laws;
