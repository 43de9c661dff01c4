//! A grid-based artificial-life simulation in fixed-point arithmetic.
//!
//! Positions, energies, genes and food are integers in thousandths of their
//! natural unit, so every rule of the world can be stated and proved exactly.
pub mod agent;
pub mod behavior;
pub mod geometry;
pub mod movement;
pub mod random;
pub mod reproduction;
pub mod terrain;
pub mod tick;
pub mod world;
