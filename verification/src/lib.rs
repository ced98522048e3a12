//! A verified two-dimensional stable-fluids simulation built around a
//! generic iterative stencil solver.
//!
//! The solver approximates solutions of `A x = b` where `A` is a fixed
//! local stencil over a regular grid; the simulation uses it for Jacobi
//! pressure projection, together with semi-Lagrangian advection and a
//! finite-difference divergence pass.  All field values are fixed-point
//! numbers (see [`fixed`]), so every step has an exact integer contract.

pub mod fixed;
pub mod grid;
pub mod solver;
pub mod advect;
pub mod project;
pub mod sim;

pub use grid::SimError;
pub use sim::SimConfig;
pub use sim::Simulation;
pub use solver::StencilElement;
pub use solver::jacobi_iter;
pub use fixed::FX_SCALE;
pub use fixed::FIELD_MAX;
pub use fixed::quantize;
