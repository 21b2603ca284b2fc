//! The thermal engine: building it, and the decisions of each substep.
use vstd::prelude::*;

use crate::boundary::{boundary_temperature, Boundary};
use crate::error::ThermalError;
use crate::layout::{
    nodes_before,
    max_subdivision,
    subdivisions_for,
    boundary_in_range,
    boundaries_in_range,
    names_zone,
    faces_ground,
    face_refs,
    faces_of,
    face_air_temperature,
    air_temperatures_match,
    same_surfaces,
    all_discretized,
    slots_from,
    lemma_nodes_before_same,
    lemma_nodes_before_monotone,
    lemma_max_subdivision_attained,
    lemma_in_range_same,
    lemma_names_zone_same,
};
use crate::surface::ThermalSurface;
use crate::zone::{Face, FaceRef, SurfaceKind, ThermalZone};

verus! {

/// A margin applied to the number of substeps on top of what stability asks.
pub const SAFETY_FACTOR: usize = 1;

/// The length of an hour in seconds.
pub const SECONDS_PER_HOUR: usize = 3600;

/// Below this many substeps per hour the engine is too coarse to be trusted.
pub const MIN_SUBSTEPS_PER_HOUR: usize = 6;

/// The thermal engine: its zones, surfaces and fenestrations, and how one
/// main timestep is divided into substeps.
pub struct ThermalModel {
    /// One zone per space, in the order of the spaces.
    pub zones: Vec<ThermalZone>,
    pub surfaces: Vec<ThermalSurface>,
    pub fenestrations: Vec<ThermalSurface>,
    /// The number of substeps taken per main timestep.
    pub dt_subdivisions: usize,
    /// The number of main timesteps per hour.
    pub steps_per_hour: usize,
    /// The first state slot that the engine reserved.
    pub first_slot: usize,
    /// One past the last state slot that the engine reserved.
    pub end_slot: usize,
}

impl ThermalModel {
    /// The first slot of the surfaces' nodes, after the zones' temperatures.
    pub open spec fn surface_slots_start(&self) -> int {
        self.first_slot + self.zones.len()
    }

    /// The first slot of the fenestrations' nodes, after the surfaces' ones.
    pub open spec fn fenestration_slots_start(&self) -> int {
        self.surface_slots_start() + nodes_before(self.surfaces@, self.surfaces.len() as int)
    }

    /// The engine's invariant.
    ///
    /// The substep count is the largest divisor that any construction asks
    /// for, so every construction marches at a substep no longer than its
    /// own stable one. Zone `i` holds space `i`; every boundary that names a
    /// zone names one of the engine's; and each zone knows exactly the faces
    /// that bound it. The reserved slots run from `first_slot` to
    /// `end_slot`: first one per zone temperature, then one per node of each
    /// surface and of each fenestration, in order.
    pub open spec fn wf(&self) -> bool {
        &&& self.steps_per_hour >= 1
        &&& all_discretized(self.surfaces@)
        &&& all_discretized(self.fenestrations@)
        &&& self.dt_subdivisions == subdivisions_for(self.surfaces@, self.fenestrations@)
        &&& self.steps_per_hour * self.dt_subdivisions <= usize::MAX
        &&& boundaries_in_range(self.surfaces@, self.zones.len() as int)
        &&& boundaries_in_range(self.fenestrations@, self.zones.len() as int)
        &&& forall|z: int|
            0 <= z < self.zones.len() ==> {
                &&& (#[trigger] self.zones[z]).index == z
                &&& self.zones[z].temperature_state_index == self.first_slot + z
                &&& self.zones[z].faces@ == faces_of(SurfaceKind::Opaque, self.surfaces@, z as usize)
                    + faces_of(SurfaceKind::Fenestration, self.fenestrations@, z as usize)
            }
        &&& slots_from(self.surfaces@, self.surface_slots_start())
        &&& slots_from(self.fenestrations@, self.fenestration_slots_start())
        &&& self.end_slot == self.fenestration_slots_start() + nodes_before(
            self.fenestrations@,
            self.fenestrations.len() as int,
        )
        &&& self.end_slot <= usize::MAX
    }
}

impl ThermalModel {
    /// Builds the engine for `n_zones` spaces and the given surfaces and
    /// fenestrations, for a main simulation of `steps_per_hour` steps per
    /// hour.
    ///
    /// Zone `i` is made for space `i`. New state slots are reserved at the
    /// end of `state`, each seeded with `seed`: one per zone temperature,
    /// then one per node of each surface, then of each fenestration. On an
    /// error the state is left as it was. The number of substeps is the
    /// largest divisor that any construction asks for, times the safety
    /// factor. A boundary that names a zone beyond the `n_zones` spaces is
    /// an `OutOfBounds` error.
    pub fn new<T: Copy>(
        n_zones: usize,
        surfaces: Vec<ThermalSurface>,
        fenestrations: Vec<ThermalSurface>,
        steps_per_hour: usize,
        state: &mut Vec<T>,
        seed: T,
    ) -> (r: Result<ThermalModel, ThermalError>)
        requires
            steps_per_hour >= 1,
            all_discretized(surfaces@),
            all_discretized(fenestrations@),
            old(state).len() + n_zones + nodes_before(surfaces@, surfaces.len() as int) + nodes_before(
                fenestrations@,
                fenestrations.len() as int,
            ) <= usize::MAX,
            forall|j: int|
                0 <= j < surfaces.len() ==> steps_per_hour * SAFETY_FACTOR
                    * (#[trigger] surfaces[j]).discretization.tstep_subdivision <= usize::MAX,
            forall|j: int|
                0 <= j < fenestrations.len() ==> steps_per_hour * SAFETY_FACTOR
                    * (#[trigger] fenestrations[j]).discretization.tstep_subdivision
                    <= usize::MAX,
        ensures
            r is Ok <==> boundaries_in_range(surfaces@, n_zones as int) && boundaries_in_range(
                fenestrations@,
                n_zones as int,
            ),
            r matches Err(e) ==> e matches ThermalError::OutOfBounds(z) && z >= n_zones && (
            names_zone(surfaces@, z) || names_zone(fenestrations@, z)),
            r is Err ==> final(state)@ == old(state)@,
            r matches Ok(m) ==> {
                &&& m.wf()
                &&& m.zones.len() == n_zones
                &&& same_surfaces(m.surfaces@, surfaces@)
                &&& same_surfaces(m.fenestrations@, fenestrations@)
                &&& m.steps_per_hour == steps_per_hour
                &&& m.first_slot == old(state).len()
                &&& final(state)@ == old(state)@ + Seq::new(
                    (m.end_slot - m.first_slot) as nat,
                    |_i: int| seed,
                )
            },
    {
        let ghost old_state = state@;
        let first_slot = state.len();
        let ghost old_surfaces = surfaces@;
        let ghost old_fenestrations = fenestrations@;
        let mut surfaces = surfaces;
        let mut fenestrations = fenestrations;
        proof {
            lemma_nodes_before_monotone(surfaces@, 0, surfaces.len() as int);
            lemma_nodes_before_monotone(fenestrations@, 0, fenestrations.len() as int);
        }
        let surface_start = first_slot + n_zones;
        let fenestration_start = assign_slots(&mut surfaces, surface_start);
        let end_slot = assign_slots(&mut fenestrations, fenestration_start);

        match check_boundaries(&surfaces, n_zones) {
            Ok(()) => {},
            Err(e) => {
                proof {
                    let z = choose|z: usize| e == ThermalError::OutOfBounds(z);
                    lemma_names_zone_same(surfaces@, old_surfaces, z);
                }
                return Err(e);
            },
        }
        match check_boundaries(&fenestrations, n_zones) {
            Ok(()) => {},
            Err(e) => {
                proof {
                    let z = choose|z: usize| e == ThermalError::OutOfBounds(z);
                    lemma_names_zone_same(fenestrations@, old_fenestrations, z);
                    assert(!boundaries_in_range(old_fenestrations, n_zones as int));
                }
                return Err(e);
            },
        }

        assert forall|j: int| 0 <= j < surfaces@.len() implies steps_per_hour * SAFETY_FACTOR
            * (#[trigger] surfaces@[j]).discretization.tstep_subdivision <= usize::MAX by {
            assert(surfaces@[j].discretization == old_surfaces[j].discretization);
        }
        assert forall|j: int| 0 <= j < fenestrations@.len() implies steps_per_hour * SAFETY_FACTOR
            * (#[trigger] fenestrations@[j]).discretization.tstep_subdivision <= usize::MAX by {
            assert(fenestrations@[j].discretization == old_fenestrations[j].discretization);
        }
        let dt_subdivisions = substep_count(&surfaces, &fenestrations, steps_per_hour);
        let zones = build_zones(n_zones, &surfaces, &fenestrations, state, seed);
        reserve(state, end_slot - surface_start, seed);
        assert(state@ =~= old_state + Seq::new((end_slot - first_slot) as nat, |_i: int| seed));
        let model = ThermalModel {
            zones,
            surfaces,
            fenestrations,
            dt_subdivisions,
            steps_per_hour,
            first_slot,
            end_slot,
        };
        proof {
            lemma_in_range_same(model.surfaces@, old_surfaces, n_zones as int);
            lemma_in_range_same(model.fenestrations@, old_fenestrations, n_zones as int);
        }
        assert(model.wf());
        Ok(model)
    }
}

impl ThermalModel {
    /// The substep in seconds, as a numerator and a denominator.
    pub open spec fn spec_dt(&self) -> (int, int) {
        (SECONDS_PER_HOUR as int, self.steps_per_hour * self.dt_subdivisions)
    }

    /// The number of substeps taken per main timestep.
    pub fn dt_subdivisions(&self) -> (r: usize)
        ensures
            r == self.dt_subdivisions,
    {
        self.dt_subdivisions
    }

    /// The main timestep, `3600 / steps_per_hour` seconds, as a numerator
    /// and a denominator.
    pub fn main_dt(&self) -> (r: (usize, usize))
        ensures
            r == (SECONDS_PER_HOUR, self.steps_per_hour),
    {
        (SECONDS_PER_HOUR, self.steps_per_hour)
    }

    /// The substep, `main_dt / dt_subdivisions` seconds, as a numerator and
    /// a denominator.
    pub fn dt(&self) -> (r: (usize, usize))
        requires
            self.wf(),
        ensures
            r.0 == self.spec_dt().0,
            r.1 == self.spec_dt().1,
    {
        (SECONDS_PER_HOUR, self.steps_per_hour * self.dt_subdivisions)
    }

    /// Whether the engine takes fewer than six substeps per hour, too few
    /// for its results to be trusted.
    pub fn is_too_coarse(&self) -> (r: bool)
        requires
            self.wf(),
        ensures
            r == (self.steps_per_hour * self.dt_subdivisions < MIN_SUBSTEPS_PER_HOUR),
    {
        self.steps_per_hour * self.dt_subdivisions < MIN_SUBSTEPS_PER_HOUR
    }

    /// The zone of index `index`, or `OutOfBounds` when there is none.
    pub fn get_thermal_zone(&self, index: usize) -> (r: Result<&ThermalZone, ThermalError>)
        ensures
            index < self.zones.len() ==> (r matches Ok(z) && *z == self.zones@[index as int]),
            index >= self.zones.len() ==> (r matches Err(e) && e == ThermalError::OutOfBounds(index)),
    {
        if index >= self.zones.len() {
            return Err(ThermalError::OutOfBounds(index));
        }
        Ok(&self.zones[index])
    }

    /// The air temperatures in front of and behind every surface and every
    /// fenestration at the start of a substep, given the outdoor dry-bulb
    /// temperature from the weather and the zones' current temperatures.
    ///
    /// A face sees the temperature of the zone that its boundary names, and
    /// the outdoor one otherwise. Without an outdoor temperature the result
    /// is `MissingWeather`; when a face meets the ground, it is
    /// `UnsupportedBoundary`.
    pub fn air_temperatures<T: Copy>(&self, t_out: Option<T>, t_current: &Vec<T>) -> (r: Result<
        (Vec<(T, T)>, Vec<(T, T)>),
        ThermalError,
    >)
        requires
            self.wf(),
            t_current.len() == self.zones.len(),
        ensures
            t_out is None ==> (r matches Err(e) && e == ThermalError::MissingWeather),
            t_out is Some ==> (r is Ok <==> !faces_ground(self.surfaces@) && !faces_ground(
                self.fenestrations@,
            )),
            t_out is Some && r is Err ==> (r matches Err(e) && e
                == ThermalError::UnsupportedBoundary),
            r matches Ok((surfs, fens)) ==> {
                &&& air_temperatures_match(surfs@, self.surfaces@, t_current@, t_out.unwrap())
                &&& air_temperatures_match(fens@, self.fenestrations@, t_current@, t_out.unwrap())
            },
    {
        let t = match t_out {
            Some(t) => t,
            None => {
                return Err(ThermalError::MissingWeather);
            },
        };
        let surfs = match faces_air_temperatures(&self.surfaces, t_current, t) {
            Ok(p) => p,
            Err(e) => {
                return Err(e);
            },
        };
        let fens = match faces_air_temperatures(&self.fenestrations, t_current, t) {
            Ok(p) => p,
            Err(e) => {
                return Err(e);
            },
        };
        Ok((surfs, fens))
    }
}

impl ThermalModel {
    /// Every zone's temperature slot lies among the first `len` slots.
    pub open spec fn zone_slots_within(&self, len: int) -> bool {
        forall|z: int| 0 <= z < self.zones.len() ==> (#[trigger] self.zones@[z]).temperature_state_index < len
    }

    /// Whether the engine has the surface that `f` names.
    pub open spec fn has_face(&self, f: FaceRef) -> bool {
        match f.kind {
            SurfaceKind::Opaque => f.index < self.surfaces.len(),
            SurfaceKind::Fenestration => f.index < self.fenestrations.len(),
        }
    }

    /// The state slot of the node on face `f`: node 0 for a front face, the
    /// last node for a back face.
    pub open spec fn face_slot(&self, f: FaceRef) -> int {
        let s = match f.kind {
            SurfaceKind::Opaque => self.surfaces@[f.index as int],
            SurfaceKind::Fenestration => self.fenestrations@[f.index as int],
        };
        match f.face {
            Face::Front => s.first_node_slot as int,
            Face::Back => s.first_node_slot + s.n_nodes() - 1,
        }
    }

    /// The current temperature of every zone, read from `state`; a zone
    /// slot beyond the state is `InvariantViolation`.
    pub fn get_current_zones_temperatures<T: Copy>(&self, state: &Vec<T>) -> (r: Result<
        Vec<T>,
        ThermalError,
    >)
        ensures
            r is Ok <==> self.zone_slots_within(state.len() as int),
            r is Err ==> r == Err::<Vec<T>, ThermalError>(ThermalError::InvariantViolation),
            r matches Ok(ts) ==> {
                &&& ts.len() == self.zones.len()
                &&& forall|z: int|
                    0 <= z < self.zones.len() ==> #[trigger] ts@[z]
                        == state@[self.zones@[z].temperature_state_index as int]
            },
    {
        let mut ret: Vec<T> = Vec::new();
        let mut i: usize = 0;
        while i < self.zones.len()
            invariant
                i <= self.zones.len(),
                ret@.len() == i,
                forall|z: int|
                    0 <= z < i ==> (#[trigger] self.zones@[z]).temperature_state_index < state.len()
                        && ret@[z] == state@[self.zones@[z].temperature_state_index as int],
            decreases self.zones.len() - i,
        {
            match self.zones[i].temperature(state) {
                Ok(t) => ret.push(t),
                Err(e) => {
                    return Err(e);
                },
            }
            i += 1;
        }
        Ok(ret)
    }

    /// Writes `temps[z]` to the slot of each zone `z`, leaving every other
    /// slot of `state` as it was. When the zones' slots do not all lie
    /// within the state, nothing is written and the result is
    /// `InvariantViolation`.
    pub fn set_zones_temperatures<T: Copy>(&self, state: &mut Vec<T>, temps: &Vec<T>) -> (r: Result<
        (),
        ThermalError,
    >)
        requires
            self.wf(),
            temps.len() == self.zones.len(),
        ensures
            r is Ok <==> self.zone_slots_within(old(state).len() as int),
            r is Err ==> r == Err::<(), ThermalError>(ThermalError::InvariantViolation) && final(state)@ == old(state)@,
            r is Ok ==> {
                &&& final(state).len() == old(state).len()
                &&& forall|z: int|
                    0 <= z < self.zones.len() ==> final(state)@[self.first_slot + z]
                        == #[trigger] temps@[z]
                &&& forall|k: int|
                    0 <= k < old(state).len() && !(self.first_slot <= k < self.first_slot
                        + self.zones.len()) ==> #[trigger] final(state)@[k] == old(state)@[k]
            },
    {
        let mut i: usize = 0;
        while i < self.zones.len()
            invariant
                i <= self.zones.len(),
                forall|z: int|
                    0 <= z < i ==> (#[trigger] self.zones@[z]).temperature_state_index < state.len(),
            decreases self.zones.len() - i,
        {
            if self.zones[i].temperature_state_index >= state.len() {
                return Err(ThermalError::InvariantViolation);
            }
            i += 1;
        }
        let ghost original = state@;
        let mut i: usize = 0;
        while i < self.zones.len()
            invariant
                self.wf(),
                temps.len() == self.zones.len(),
                i <= self.zones.len(),
                self.zone_slots_within(original.len() as int),
                state@.len() == original.len(),
                forall|z: int| 0 <= z < i ==> state@[self.first_slot + z] == #[trigger] temps@[z],
                forall|k: int|
                    0 <= k < original.len() && !(self.first_slot <= k < self.first_slot + i)
                        ==> #[trigger] state@[k] == original[k],
            decreases self.zones.len() - i,
        {
            assert(self.zones@[i as int].temperature_state_index < state.len());
            let _ = self.zones[i].set_temperature(state, temps[i]);
            i += 1;
        }
        Ok(())
    }

    /// The temperature of the node on face `f`, read from `state`. A face
    /// of a surface that the engine lacks is `OutOfBounds`; a slot beyond
    /// the state is `InvariantViolation`.
    pub fn face_temperature<T: Copy>(&self, f: FaceRef, state: &Vec<T>) -> (r: Result<T, ThermalError>)
        requires
            self.wf(),
        ensures
            !self.has_face(f) ==> r == Err::<T, ThermalError>(ThermalError::OutOfBounds(f.index)),
            self.has_face(f) && self.face_slot(f) < state.len() ==> r == Ok::<T, ThermalError>(
                state@[self.face_slot(f)],
            ),
            self.has_face(f) && self.face_slot(f) >= state.len() ==> r == Err::<T, ThermalError>(
                ThermalError::InvariantViolation,
            ),
    {
        let surfaces = match f.kind {
            SurfaceKind::Opaque => &self.surfaces,
            SurfaceKind::Fenestration => &self.fenestrations,
        };
        if f.index >= surfaces.len() {
            return Err(ThermalError::OutOfBounds(f.index));
        }
        proof {
            lemma_surface_slots_within(*self, f.kind, f.index as int);
        }
        let s = &surfaces[f.index];
        let slot = match f.face {
            Face::Front => s.front_node_slot(),
            Face::Back => s.back_node_slot(),
        };
        if slot < state.len() {
            Ok(state[slot])
        } else {
            Err(ThermalError::InvariantViolation)
        }
    }
}

/// The number of substeps per main step: the largest divisor that the
/// surfaces and fenestrations ask for, times the safety factor.
fn substep_count(
    surfaces: &Vec<ThermalSurface>,
    fenestrations: &Vec<ThermalSurface>,
    steps_per_hour: usize,
) -> (r: usize)
    requires
        forall|j: int|
            0 <= j < surfaces.len() ==> steps_per_hour * SAFETY_FACTOR
                * (#[trigger] surfaces@[j]).discretization.tstep_subdivision <= usize::MAX,
        forall|j: int|
            0 <= j < fenestrations.len() ==> steps_per_hour * SAFETY_FACTOR
                * (#[trigger] fenestrations@[j]).discretization.tstep_subdivision <= usize::MAX,
    ensures
        r == subdivisions_for(surfaces@, fenestrations@),
        steps_per_hour * r <= usize::MAX,
{
    let surface_max = max_subdivision_of(surfaces);
    let fenestration_max = max_subdivision_of(fenestrations);
    let largest = if surface_max > fenestration_max {
        surface_max
    } else {
        fenestration_max
    };
    proof {
        lemma_max_subdivision_attained(surfaces@);
        lemma_max_subdivision_attained(fenestrations@);
        if largest != 1 {
            if surface_max == largest {
                let j = choose|j: int|
                    0 <= j < surfaces@.len()
                        && (#[trigger] surfaces@[j]).discretization.tstep_subdivision
                        == max_subdivision(surfaces@);
                assert(steps_per_hour * SAFETY_FACTOR * surfaces@[j].discretization.tstep_subdivision
                    <= usize::MAX);
            } else {
                let j = choose|j: int|
                    0 <= j < fenestrations@.len()
                        && (#[trigger] fenestrations@[j]).discretization.tstep_subdivision
                        == max_subdivision(fenestrations@);
                assert(steps_per_hour * SAFETY_FACTOR
                    * fenestrations@[j].discretization.tstep_subdivision <= usize::MAX);
            }
        }
    }
    SAFETY_FACTOR * largest
}

/// One zone per space, each with its temperature slot and the faces that
/// bound it.
fn build_zones<T: Copy>(
    n_zones: usize,
    surfaces: &Vec<ThermalSurface>,
    fenestrations: &Vec<ThermalSurface>,
    state: &mut Vec<T>,
    seed: T,
) -> (zones: Vec<ThermalZone>)
    requires
        old(state).len() + n_zones <= usize::MAX,
    ensures
        final(state)@ == old(state)@ + Seq::new(n_zones as nat, |_i: int| seed),
        zones@.len() == n_zones,
        forall|i: int|
            0 <= i < n_zones ==> {
                &&& (#[trigger] zones@[i]).index == i
                &&& zones@[i].temperature_state_index == old(state).len() + i
                &&& zones@[i].faces@ == faces_of(SurfaceKind::Opaque, surfaces@, i as usize)
                    + faces_of(SurfaceKind::Fenestration, fenestrations@, i as usize)
            },
{
    let ghost old_state = state@;
    let first_slot = state.len();
    let mut zones: Vec<ThermalZone> = Vec::new();
    let mut z: usize = 0;
    while z < n_zones
        invariant
            z <= n_zones,
            first_slot + n_zones <= usize::MAX,
            first_slot == old_state.len(),
            state@ =~= old_state + Seq::new(z as nat, |_i: int| seed),
            zones@.len() == z,
            forall|i: int|
                0 <= i < z ==> {
                    &&& (#[trigger] zones@[i]).index == i
                    &&& zones@[i].temperature_state_index == first_slot + i
                    &&& zones@[i].faces@ == faces_of(SurfaceKind::Opaque, surfaces@, i as usize)
                        + faces_of(SurfaceKind::Fenestration, fenestrations@, i as usize)
                },
        decreases n_zones - z,
    {
        let mut zone = ThermalZone::from_space(z, state, seed);
        assert(state@ =~= old_state + Seq::new(z as nat + 1, |_i: int| seed));
        collect_faces(&mut zone, SurfaceKind::Opaque, surfaces, z);
        collect_faces(&mut zone, SurfaceKind::Fenestration, fenestrations, z);
        assert(zone.faces@ =~= faces_of(SurfaceKind::Opaque, surfaces@, z)
            + faces_of(SurfaceKind::Fenestration, fenestrations@, z));
        zones.push(zone);
        z += 1;
    }
    zones
}

/// Appends `count` slots holding `seed` to `state`.
fn reserve<T: Copy>(state: &mut Vec<T>, count: usize, seed: T)
    ensures
        final(state)@ == old(state)@ + Seq::new(count as nat, |_i: int| seed),
{
    let ghost old_state = state@;
    let mut i: usize = 0;
    while i < count
        invariant
            i <= count,
            state@ =~= old_state + Seq::new(i as nat, |_i: int| seed),
        decreases count - i,
    {
        state.push(seed);
        i += 1;
        assert(state@ =~= old_state + Seq::new(i as nat, |_i: int| seed));
    }
}

/// Assigns consecutive node slots to `surfs` from `start` on, and returns
/// the slot after the last one.
fn assign_slots(surfs: &mut Vec<ThermalSurface>, start: usize) -> (end: usize)
    requires
        all_discretized(old(surfs)@),
        start + nodes_before(old(surfs)@, old(surfs).len() as int) <= usize::MAX,
    ensures
        same_surfaces(final(surfs)@, old(surfs)@),
        all_discretized(final(surfs)@),
        slots_from(final(surfs)@, start as int),
        nodes_before(final(surfs)@, final(surfs).len() as int) == nodes_before(
            old(surfs)@,
            old(surfs).len() as int,
        ),
        end == start + nodes_before(final(surfs)@, final(surfs).len() as int),
{
    let ghost original = surfs@;
    let mut next: usize = start;
    let mut j: usize = 0;
    while j < surfs.len()
        invariant
            surfs@.len() == original.len(),
            all_discretized(original),
            start + nodes_before(original, original.len() as int) <= usize::MAX,
            j <= surfs.len(),
            forall|i: int|
                0 <= i < surfs.len() ==> {
                    &&& (#[trigger] surfs@[i]).front_boundary == original[i].front_boundary
                    &&& surfs@[i].back_boundary == original[i].back_boundary
                    &&& surfs@[i].discretization == original[i].discretization
                },
            forall|i: int|
                0 <= i < j ==> (#[trigger] surfs@[i]).first_node_slot == start + nodes_before(
                    original,
                    i,
                ),
            next == start + nodes_before(original, j as int),
        decreases original.len() - j,
    {
        proof {
            lemma_nodes_before_monotone(original, j as int + 1, original.len() as int);
        }
        let count = surfs[j].discretization.node_count();
        surfs[j].first_node_slot = next;
        next = next + count;
        j += 1;
    }
    proof {
        lemma_nodes_before_same(surfs@, original, surfs.len() as int);
        assert forall|i: int| 0 <= i < surfs.len() implies (#[trigger] surfs@[i]).first_node_slot
            == start + nodes_before(surfs@, i) by {
            lemma_nodes_before_same(surfs@, original, i);
        }
    }
    next
}

/// Checks that every boundary of `surfs` names no zone or one of the first
/// `n_zones`.
fn check_boundaries(surfs: &Vec<ThermalSurface>, n_zones: usize) -> (r: Result<(), ThermalError>)
    ensures
        r is Ok <==> boundaries_in_range(surfs@, n_zones as int),
        r matches Err(e) ==> e matches ThermalError::OutOfBounds(z) && z >= n_zones && names_zone(
            surfs@,
            z,
        ),
{
    let mut j: usize = 0;
    while j < surfs.len()
        invariant
            j <= surfs.len(),
            forall|i: int|
                0 <= i < j ==> boundary_in_range(#[trigger] surfs@[i].front_boundary, n_zones as int)
                    && boundary_in_range(surfs@[i].back_boundary, n_zones as int),
        decreases surfs.len() - j,
    {
        if let Boundary::AnotherZone(z) = surfs[j].front_boundary {
            if z >= n_zones {
                assert(surfs@[j as int].front_boundary == Boundary::AnotherZone(z));
                return Err(ThermalError::OutOfBounds(z));
            }
        }
        if let Boundary::AnotherZone(z) = surfs[j].back_boundary {
            if z >= n_zones {
                assert(surfs@[j as int].back_boundary == Boundary::AnotherZone(z));
                return Err(ThermalError::OutOfBounds(z));
            }
        }
        j += 1;
    }
    Ok(())
}

/// The largest substep divisor that the surfaces of `surfs` ask for, and 1
/// when there is none.
fn max_subdivision_of(surfs: &Vec<ThermalSurface>) -> (r: usize)
    ensures
        r == max_subdivision(surfs@),
{
    let mut m: usize = 1;
    let mut j: usize = 0;
    while j < surfs.len()
        invariant
            j <= surfs.len(),
            m == max_subdivision(surfs@.take(j as int)),
        decreases surfs.len() - j,
    {
        assert(surfs@.take(j as int + 1).drop_last() =~= surfs@.take(j as int));
        let t = surfs[j].discretization.tstep_subdivision;
        if t > m {
            m = t;
        }
        j += 1;
    }
    assert(surfs@.take(j as int) =~= surfs@);
    m
}

/// Appends to the zone's faces those of `surfs` that bound zone `z`.
fn collect_faces(zone: &mut ThermalZone, kind: SurfaceKind, surfs: &Vec<ThermalSurface>, z: usize)
    ensures
        final(zone).faces@ == old(zone).faces@ + faces_of(kind, surfs@, z),
        final(zone).index == old(zone).index,
        final(zone).temperature_state_index == old(zone).temperature_state_index,
{
    let ghost start = zone.faces@;
    let mut j: usize = 0;
    while j < surfs.len()
        invariant
            j <= surfs.len(),
            zone.faces@ == start + faces_of(kind, surfs@.take(j as int), z),
            zone.index == old(zone).index,
            zone.temperature_state_index == old(zone).temperature_state_index,
        decreases surfs.len() - j,
    {
        let ghost before = zone.faces@;
        assert(surfs@.take(j as int + 1).drop_last() =~= surfs@.take(j as int));
        assert(surfs@.take(j as int + 1).last() == surfs@[j as int]);
        if surfs[j].front_boundary == Boundary::AnotherZone(z) {
            zone.push_surface(FaceRef { kind, index: j, face: Face::Front });
        }
        if surfs[j].back_boundary == Boundary::AnotherZone(z) {
            zone.push_surface(FaceRef { kind, index: j, face: Face::Back });
        }
        assert(zone.faces@ =~= before + face_refs(kind, j as int, surfs@[j as int], z));
        j += 1;
    }
    assert(surfs@.take(j as int) =~= surfs@);
}

/// The air temperatures in front of and behind each surface of `surfs`.
fn faces_air_temperatures<T: Copy>(surfs: &Vec<ThermalSurface>, t_current: &Vec<T>, t_out: T) -> (r:
    Result<Vec<(T, T)>, ThermalError>)
    requires
        boundaries_in_range(surfs@, t_current.len() as int),
    ensures
        r is Ok <==> !faces_ground(surfs@),
        r is Err ==> (r matches Err(e) && e == ThermalError::UnsupportedBoundary),
        r matches Ok(p) ==> air_temperatures_match(p@, surfs@, t_current@, t_out),
{
    let mut pairs: Vec<(T, T)> = Vec::new();
    let mut j: usize = 0;
    while j < surfs.len()
        invariant
            j <= surfs.len(),
            boundaries_in_range(surfs@, t_current.len() as int),
            pairs@.len() == j,
            forall|i: int|
                0 <= i < j ==> {
                    &&& (#[trigger] surfs@[i]).front_boundary != Boundary::Ground
                    &&& surfs@[i].back_boundary != Boundary::Ground
                    &&& pairs@[i] == (
                        face_air_temperature(surfs@[i].front_boundary, t_current@, t_out),
                        face_air_temperature(surfs@[i].back_boundary, t_current@, t_out),
                    )
                },
        decreases surfs.len() - j,
    {
        let s = &surfs[j];
        assert(boundary_in_range(surfs@[j as int].front_boundary, t_current.len() as int));
        let front = match boundary_temperature(&s.front_boundary, t_current, t_out) {
            Ok(v) => v,
            Err(e) => {
                return Err(e);
            },
        };
        let back = match boundary_temperature(&s.back_boundary, t_current, t_out) {
            Ok(v) => v,
            Err(e) => {
                return Err(e);
            },
        };
        pairs.push((front, back));
        j += 1;
    }
    Ok(pairs)
}

/// The nodes of every surface and fenestration lie within the reserved slots.
proof fn lemma_surface_slots_within(m: ThermalModel, kind: SurfaceKind, j: int)
    requires
        m.wf(),
        0 <= j,
        kind == SurfaceKind::Opaque ==> j < m.surfaces.len(),
        kind == SurfaceKind::Fenestration ==> j < m.fenestrations.len(),
    ensures
        ({
            let s = match kind {
                SurfaceKind::Opaque => m.surfaces@[j],
                SurfaceKind::Fenestration => m.fenestrations@[j],
            };
            &&& s.discretization.wf()
            &&& s.first_node_slot + s.n_nodes() <= m.end_slot
        }),
{
    lemma_nodes_before_monotone(m.fenestrations@, 0, m.fenestrations.len() as int);
    match kind {
        SurfaceKind::Opaque => {
            lemma_nodes_before_monotone(m.surfaces@, j + 1, m.surfaces.len() as int);
            assert(m.surfaces@[j].discretization.wf());
        },
        SurfaceKind::Fenestration => {
            lemma_nodes_before_monotone(m.fenestrations@, j + 1, m.fenestrations.len() as int);
            assert(m.fenestrations@[j].discretization.wf());
        },
    }
}

} // verus!
