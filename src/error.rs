//! The engine's error kinds.
use vstd::prelude::*;

verus! {

/// The kinds of failure that building or marching the engine can report.
#[derive(Debug, Clone, Copy, PartialEq, Eq, Structural)]
pub enum ThermalError {
    /// A construction is empty, or no admissible discretisation was found.
    Discretization,
    /// The weather gave no dry-bulb temperature for a substep.
    MissingWeather,
    /// A surface faces the ground, whose heat transfer is not modelled.
    UnsupportedBoundary,
    /// A numerical result was not finite.
    Solver,
    /// An index outside the engine's zones, surfaces or fenestrations.
    OutOfBounds(usize),
    /// A state slot held a value of an unexpected kind.
    InvariantViolation,
}

} // verus!
