//! Velocity autocorrelation of molecular-dynamics trajectories read from
//! text dump files.
pub mod numbers;
pub mod lexer;
pub mod error;
pub mod readers;
pub mod grid;
pub mod velocities;
pub mod vacf;
pub mod laws;
