//! What lies across a surface face, and the air temperature it gives.
use vstd::prelude::*;

use crate::error::ThermalError;

verus! {

/// What lies on the other side of a surface face.
#[derive(Debug, Clone, Copy, PartialEq, Eq, Structural)]
pub enum Boundary {
    /// The outdoor air.
    Outdoor,
    /// The air of the zone with this index.
    AnotherZone(usize),
    /// The ground.
    Ground,
}

impl Boundary {
    /// The zone that this boundary faces, if any.
    pub open spec fn zone(self) -> Option<usize> {
        match self {
            Boundary::AnotherZone(z) => Some(z),
            _ => None,
        }
    }
}

/// The air temperature that a face sees across `b`, given the zones'
/// temperatures and the outdoor temperature.
pub open spec fn boundary_value<T>(b: Boundary, zones: Seq<T>, t_out: T) -> Result<T, ThermalError> {
    match b {
        Boundary::Outdoor => Ok(t_out),
        Boundary::AnotherZone(z) => if z < zones.len() {
            Ok(zones[z as int])
        } else {
            Err(ThermalError::OutOfBounds(z))
        },
        Boundary::Ground => Err(ThermalError::UnsupportedBoundary),
    }
}

/// Resolves the air temperature across a boundary: the outdoor temperature
/// outdoors, the zone's current temperature for another zone, and an error
/// for the ground.
pub fn boundary_temperature<T: Copy>(b: &Boundary, t_current: &Vec<T>, t_out: T) -> (r: Result<
    T,
    ThermalError,
>)
    ensures
        r == boundary_value(*b, t_current@, t_out),
{
    match b {
        Boundary::Outdoor => Ok(t_out),
        Boundary::AnotherZone(z) => {
            if *z < t_current.len() {
                Ok(t_current[*z])
            } else {
                Err(ThermalError::OutOfBounds(*z))
            }
        },
        Boundary::Ground => Err(ThermalError::UnsupportedBoundary),
    }
}

} // verus!
