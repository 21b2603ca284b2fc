//! Thermal zones and the surface faces that bound them.
use vstd::prelude::*;

use crate::error::ThermalError;

verus! {

/// Whether a surface of the engine is opaque or a fenestration.
#[derive(Debug, Clone, Copy, PartialEq, Eq, Structural)]
pub enum SurfaceKind {
    Opaque,
    Fenestration,
}

/// One of the two faces of a surface: node 0 lies on the front, the last
/// node on the back.
#[derive(Debug, Clone, Copy, PartialEq, Eq, Structural)]
pub enum Face {
    Front,
    Back,
}

/// A face of one of the engine's surfaces or fenestrations.
#[derive(Debug, Clone, Copy, PartialEq, Eq, Structural)]
pub struct FaceRef {
    pub kind: SurfaceKind,
    /// The position of the surface among the engine's surfaces of its kind.
    pub index: usize,
    pub face: Face,
}

/// The well-mixed air volume of one space.
pub struct ThermalZone {
    /// The index of the space, which is also the zone's position among the
    /// engine's zones.
    pub index: usize,
    /// The state slot that holds the zone's dry-bulb air temperature.
    pub temperature_state_index: usize,
    /// The surface faces that exchange heat with this zone's air, in the
    /// order in which their convective gains are summed.
    pub faces: Vec<FaceRef>,
}

impl ThermalZone {
    /// A zone for the space of index `index`, touching no surface yet. It
    /// reserves a new slot at the end of `state` for its dry-bulb
    /// temperature, seeded with `seed`.
    pub fn from_space<T: Copy>(index: usize, state: &mut Vec<T>, seed: T) -> (z: ThermalZone)
        requires
            old(state).len() < usize::MAX,
        ensures
            z.index == index,
            z.temperature_state_index == old(state).len(),
            z.faces@ == Seq::<FaceRef>::empty(),
            final(state)@ == old(state)@.push(seed),
    {
        let temperature_state_index = state.len();
        state.push(seed);
        ThermalZone { index, temperature_state_index, faces: Vec::new() }
    }

    /// Records that face `f` exchanges heat with this zone.
    pub fn push_surface(&mut self, f: FaceRef)
        ensures
            final(self).faces@ == old(self).faces@.push(f),
            final(self).index == old(self).index,
            final(self).temperature_state_index == old(self).temperature_state_index,
    {
        self.faces.push(f);
    }

    /// The zone's dry-bulb air temperature, read from its slot of `state`;
    /// a slot beyond the state is `InvariantViolation`.
    pub fn temperature<T: Copy>(&self, state: &Vec<T>) -> (r: Result<T, ThermalError>)
        ensures
            self.temperature_state_index < state.len() ==> r == Ok::<T, ThermalError>(
                state@[self.temperature_state_index as int],
            ),
            self.temperature_state_index >= state.len() ==> r == Err::<T, ThermalError>(
                ThermalError::InvariantViolation,
            ),
    {
        if self.temperature_state_index < state.len() {
            Ok(state[self.temperature_state_index])
        } else {
            Err(ThermalError::InvariantViolation)
        }
    }

    /// Writes `t` to the zone's slot of `state`, leaving every other slot as
    /// it was; a slot beyond the state is `InvariantViolation`.
    pub fn set_temperature<T: Copy>(&self, state: &mut Vec<T>, t: T) -> (r: Result<(), ThermalError>)
        ensures
            self.temperature_state_index < old(state).len() ==> r is Ok && final(state)@ == old(state)@.update(self.temperature_state_index as int, t),
            self.temperature_state_index >= old(state).len() ==> r == Err::<(), ThermalError>(
                ThermalError::InvariantViolation,
            ) && final(state)@ == old(state)@,
    {
        if self.temperature_state_index < state.len() {
            state.set(self.temperature_state_index, t);
            Ok(())
        } else {
            Err(ThermalError::InvariantViolation)
        }
    }
}

} // verus!
