//! How surfaces, zones and state slots relate: the specification functions
//! that the engine's invariant is written in, and lemmas about them.
use vstd::prelude::*;

use crate::boundary::Boundary;
use crate::model::SAFETY_FACTOR;
use crate::surface::ThermalSurface;
use crate::zone::{Face, FaceRef, SurfaceKind};

verus! {

/// The number of nodes of the first `j` surfaces of `surfs`.
pub open spec fn nodes_before(surfs: Seq<ThermalSurface>, j: int) -> int
    decreases j,
{
    if j <= 0 {
        0
    } else {
        nodes_before(surfs, j - 1) + surfs[j - 1].n_nodes()
    }
}

/// The largest substep divisor that the surfaces of `surfs` ask for, and 1
/// when there is none.
pub open spec fn max_subdivision(surfs: Seq<ThermalSurface>) -> int
    decreases surfs.len(),
{
    if surfs.len() == 0 {
        1
    } else {
        let m = max_subdivision(surfs.drop_last());
        let t = surfs.last().discretization.tstep_subdivision as int;
        if t > m {
            t
        } else {
            m
        }
    }
}

/// The number of substeps per main step for these surfaces and fenestrations.
pub open spec fn subdivisions_for(surfs: Seq<ThermalSurface>, fens: Seq<ThermalSurface>) -> int {
    SAFETY_FACTOR * if max_subdivision(surfs) > max_subdivision(fens) {
        max_subdivision(surfs)
    } else {
        max_subdivision(fens)
    }
}

/// A boundary names no zone, or a zone among the first `n_zones`.
pub open spec fn boundary_in_range(b: Boundary, n_zones: int) -> bool {
    match b.zone() {
        Some(z) => z < n_zones,
        None => true,
    }
}

/// Every boundary of `surfs` names no zone or one among the first `n_zones`.
pub open spec fn boundaries_in_range(surfs: Seq<ThermalSurface>, n_zones: int) -> bool {
    forall|j: int|
        0 <= j < surfs.len() ==> boundary_in_range(#[trigger] surfs[j].front_boundary, n_zones)
            && boundary_in_range(surfs[j].back_boundary, n_zones)
}

/// Some boundary of `surfs` names zone `z`.
pub open spec fn names_zone(surfs: Seq<ThermalSurface>, z: usize) -> bool {
    exists|j: int|
        0 <= j < surfs.len() && (#[trigger] surfs[j].front_boundary == Boundary::AnotherZone(z)
            || surfs[j].back_boundary == Boundary::AnotherZone(z))
}

/// Some face of `surfs` faces the ground.
pub open spec fn faces_ground(surfs: Seq<ThermalSurface>) -> bool {
    exists|j: int|
        0 <= j < surfs.len() && (#[trigger] surfs[j].front_boundary == Boundary::Ground
            || surfs[j].back_boundary == Boundary::Ground)
}

/// The faces of surface `j` of kind `kind` that exchange heat with zone `z`,
/// front before back.
pub open spec fn face_refs(kind: SurfaceKind, j: int, s: ThermalSurface, z: usize) -> Seq<FaceRef> {
    let front = if s.front_boundary == Boundary::AnotherZone(z) {
        seq![FaceRef { kind, index: j as usize, face: Face::Front }]
    } else {
        Seq::empty()
    };
    let back = if s.back_boundary == Boundary::AnotherZone(z) {
        seq![FaceRef { kind, index: j as usize, face: Face::Back }]
    } else {
        Seq::empty()
    };
    front + back
}

/// The faces of `surfs` that exchange heat with zone `z`, in surface order.
pub open spec fn faces_of(kind: SurfaceKind, surfs: Seq<ThermalSurface>, z: usize) -> Seq<FaceRef>
    decreases surfs.len(),
{
    if surfs.len() == 0 {
        Seq::empty()
    } else {
        faces_of(kind, surfs.drop_last(), z) + face_refs(
            kind,
            surfs.len() - 1,
            surfs.last(),
            z,
        )
    }
}

/// The air temperature that a face sees across `b` when no boundary faces
/// the ground: the zone's temperature, or the outdoor one.
pub open spec fn face_air_temperature<T>(b: Boundary, zones: Seq<T>, t_out: T) -> T {
    match b {
        Boundary::AnotherZone(z) => zones[z as int],
        _ => t_out,
    }
}

/// `pairs` holds, for each surface of `surfs`, the air temperatures in front
/// of and behind it.
pub open spec fn air_temperatures_match<T>(
    pairs: Seq<(T, T)>,
    surfs: Seq<ThermalSurface>,
    zones: Seq<T>,
    t_out: T,
) -> bool {
    &&& pairs.len() == surfs.len()
    &&& forall|j: int|
        0 <= j < surfs.len() ==> #[trigger] pairs[j] == (
            face_air_temperature(surfs[j].front_boundary, zones, t_out),
            face_air_temperature(surfs[j].back_boundary, zones, t_out),
        )
}

/// `a` holds the surfaces of `b`, in order, with their node slots assigned.
pub open spec fn same_surfaces(a: Seq<ThermalSurface>, b: Seq<ThermalSurface>) -> bool {
    &&& a.len() == b.len()
    &&& forall|j: int|
        0 <= j < a.len() ==> {
            &&& (#[trigger] a[j]).front_boundary == b[j].front_boundary
            &&& a[j].back_boundary == b[j].back_boundary
            &&& a[j].discretization == b[j].discretization
        }
}

/// Every surface of `surfs` is well discretised.
pub open spec fn all_discretized(surfs: Seq<ThermalSurface>) -> bool {
    forall|j: int| 0 <= j < surfs.len() ==> (#[trigger] surfs[j]).discretization.wf()
}

/// The node slots of `surfs` follow one another from `start` on.
pub open spec fn slots_from(surfs: Seq<ThermalSurface>, start: int) -> bool {
    forall|j: int|
        0 <= j < surfs.len() ==> (#[trigger] surfs[j]).first_node_slot == start + nodes_before(
            surfs,
            j,
        )
}

/// Node totals of the first `j` surfaces depend only on those surfaces'
/// discretisations.
pub(crate) proof fn lemma_nodes_before_same(a: Seq<ThermalSurface>, b: Seq<ThermalSurface>, j: int)
    requires
        0 <= j <= a.len(),
        j <= b.len(),
        forall|i: int| 0 <= i < j ==> (#[trigger] a[i]).discretization == b[i].discretization,
    ensures
        nodes_before(a, j) == nodes_before(b, j),
    decreases j,
{
    if j > 0 {
        lemma_nodes_before_same(a, b, j - 1);
    }
}

/// Node totals of prefixes grow with the prefix.
pub(crate) proof fn lemma_nodes_before_monotone(s: Seq<ThermalSurface>, i: int, j: int)
    requires
        0 <= i <= j <= s.len(),
        all_discretized(s),
    ensures
        0 <= nodes_before(s, i) <= nodes_before(s, j),
    decreases j,
{
    if j > i {
        lemma_nodes_before_monotone(s, i, j - 1);
        crate::discretization::lemma_sum_nodes_positive(s[j - 1].discretization.n_nodes@);
    } else {
        lemma_nodes_before_nonneg(s, i);
    }
}

proof fn lemma_nodes_before_nonneg(s: Seq<ThermalSurface>, i: int)
    requires
        0 <= i <= s.len(),
        all_discretized(s),
    ensures
        0 <= nodes_before(s, i),
    decreases i,
{
    if i > 0 {
        lemma_nodes_before_nonneg(s, i - 1);
        crate::discretization::lemma_sum_nodes_positive(s[i - 1].discretization.n_nodes@);
    }
}

/// The largest divisor is 1 or the divisor of some surface, and bounds them all.
pub(crate) proof fn lemma_max_subdivision_attained(s: Seq<ThermalSurface>)
    ensures
        max_subdivision(s) >= 1,
        forall|j: int|
            0 <= j < s.len() ==> (#[trigger] s[j]).discretization.tstep_subdivision
                <= max_subdivision(s),
        max_subdivision(s) == 1 || exists|j: int|
            0 <= j < s.len() && (#[trigger] s[j]).discretization.tstep_subdivision
                == max_subdivision(s),
    decreases s.len(),
{
    if s.len() > 0 {
        lemma_max_subdivision_attained(s.drop_last());
        assert forall|j: int| 0 <= j < s.len() - 1 implies s.drop_last()[j] == s[j] by {}
        if max_subdivision(s) != 1 && max_subdivision(s) != s.last().discretization.tstep_subdivision {
            let j = choose|j: int|
                0 <= j < s.drop_last().len() && (#[trigger] s.drop_last()[j]).discretization.tstep_subdivision
                    == max_subdivision(s.drop_last());
            assert(s[j] == s.drop_last()[j]);
        }
    }
}

pub(crate) proof fn lemma_in_range_same(a: Seq<ThermalSurface>, b: Seq<ThermalSurface>, n_zones: int)
    requires
        same_surfaces(a, b),
    ensures
        boundaries_in_range(a, n_zones) == boundaries_in_range(b, n_zones),
{
    if boundaries_in_range(a, n_zones) {
        assert forall|j: int| 0 <= j < b.len() implies boundary_in_range(
            #[trigger] b[j].front_boundary,
            n_zones,
        ) && boundary_in_range(b[j].back_boundary, n_zones) by {
            assert(a[j].front_boundary == b[j].front_boundary);
        }
    }
    if boundaries_in_range(b, n_zones) {
        assert forall|j: int| 0 <= j < a.len() implies boundary_in_range(
            #[trigger] a[j].front_boundary,
            n_zones,
        ) && boundary_in_range(a[j].back_boundary, n_zones) by {
            assert(a[j].front_boundary == b[j].front_boundary);
        }
    }
}

pub(crate) proof fn lemma_names_zone_same(a: Seq<ThermalSurface>, b: Seq<ThermalSurface>, z: usize)
    requires
        same_surfaces(a, b),
    ensures
        names_zone(a, z) == names_zone(b, z),
{
    if names_zone(a, z) {
        let j = choose|j: int|
            0 <= j < a.len() && (#[trigger] a[j].front_boundary == Boundary::AnotherZone(z)
                || a[j].back_boundary == Boundary::AnotherZone(z));
        assert(a[j].front_boundary == b[j].front_boundary);
    }
    if names_zone(b, z) {
        let j = choose|j: int|
            0 <= j < b.len() && (#[trigger] b[j].front_boundary == Boundary::AnotherZone(z)
                || b[j].back_boundary == Boundary::AnotherZone(z));
        assert(a[j].front_boundary == b[j].front_boundary);
    }
}

} // verus!
