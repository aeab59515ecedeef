//! Failures reported by the library.
use vstd::prelude::*;

verus! {

/// Why reading a trajectory or correlating its velocities failed.
#[derive(Debug, Clone, PartialEq)]
pub enum VacfError {
    /// The input could not be read; the underlying cause.
    IoFailure(String),
    /// A timestep, atom-count or atom-table header is malformed (1-based line).
    MalformedHeader { line: usize },
    /// An atom line has the wrong number of fields or a field that does not
    /// parse (1-based line).
    MalformedAtomRecord { line: usize },
    /// The text ends inside a timestep block.
    UnexpectedEof,
    /// There are no frames, or no particles.
    EmptyTrajectory,
    /// A frame (0-based) holds another number of particles than the first.
    ParticleCountMismatch { frame: usize },
    /// The exact sums of the correlation could leave 128 bits: with `n`
    /// particles, `T` timesteps and `v` the largest velocity component in
    /// units of the trajectory's smallest decimal place, this is when
    /// `n * n * T` exceeds `2^60` or `n * n * T * v * v` exceeds `2^122`.
    TrajectoryTooLarge,
}

} // verus!
