//! Building the engine from descriptions of its surfaces: every
//! construction is planned with the same node and stability tests, and the
//! model inherits what the planner guarantees.
use vstd::prelude::*;

use crate::boundary::Boundary;
use crate::discretization::{
    lemma_sum_nodes_bounded,
    planned,
    plan_fails,
    some_unstable,
    tests_callable,
    Discretization,
};
use crate::error::ThermalError;
use crate::layout::{
    all_discretized,
    lemma_max_subdivision_attained,
    lemma_nodes_before_same,
    max_subdivision,
    names_zone,
    nodes_before,
    same_surfaces,
};
use crate::model::{ThermalModel, SAFETY_FACTOR};
use crate::surface::ThermalSurface;
use crate::zone::SurfaceKind;

verus! {

/// A surface or fenestration to plan: what it faces on each side and how
/// many layers its construction has.
#[derive(Debug, Clone, Copy, PartialEq, Eq, Structural)]
pub struct SurfaceDescription {
    pub front_boundary: Boundary,
    pub back_boundary: Boundary,
    pub n_layers: usize,
}

/// The number of layers of all the constructions of `descs`.
pub open spec fn total_layers(descs: Seq<SurfaceDescription>) -> int
    decreases descs.len(),
{
    if descs.len() == 0 {
        0
    } else {
        total_layers(descs.drop_last()) + descs.last().n_layers
    }
}

/// The tests may be asked about every construction of `descs`, known by
/// its kind and position.
pub open spec fn descriptions_callable<
    FN: Fn((SurfaceKind, usize), usize, usize) -> bool,
    FS: Fn((SurfaceKind, usize), usize, usize, usize) -> bool,
>(
    fits: FN,
    stable: FS,
    kind: SurfaceKind,
    descs: Seq<SurfaceDescription>,
    max_nodes: usize,
    max_subdivisions: usize,
) -> bool {
    forall|j: int|
        0 <= j < descs.len() ==> tests_callable(
            fits,
            stable,
            (kind, j as usize),
            (#[trigger] descs[j]).n_layers,
            max_nodes,
            max_subdivisions,
        )
}

/// A layer that is stable at some divisor stays stable at every larger
/// one: a shorter substep never makes an explicit step less stable.
pub open spec fn stable_monotone<FS: Fn((SurfaceKind, usize), usize, usize, usize) -> bool>(
    stable: FS,
) -> bool {
    forall|c: (SurfaceKind, usize), k: usize, n: usize, s1: usize, s2: usize, r: bool|
        #![trigger stable.ensures((c, k, n, s1), true), stable.ensures((c, k, n, s2), r)]
        1 <= s1 <= s2 && stable.ensures((c, k, n, s1), true) && stable.ensures((c, k, n, s2), r)
            ==> r
}

/// Surface `j` of `built` faces what description `j` says, and its
/// discretisation is what planning its construction gives.
pub open spec fn plans_match<
    FN: Fn((SurfaceKind, usize), usize, usize) -> bool,
    FS: Fn((SurfaceKind, usize), usize, usize, usize) -> bool,
>(
    fits: FN,
    stable: FS,
    kind: SurfaceKind,
    built: Seq<ThermalSurface>,
    descs: Seq<SurfaceDescription>,
    max_nodes: usize,
    max_subdivisions: usize,
) -> bool {
    &&& built.len() == descs.len()
    &&& forall|j: int|
        0 <= j < built.len() ==> {
            &&& (#[trigger] built[j]).front_boundary == descs[j].front_boundary
            &&& built[j].back_boundary == descs[j].back_boundary
            &&& planned(
                fits,
                stable,
                (kind, j as usize),
                descs[j].n_layers,
                max_nodes,
                max_subdivisions,
                built[j].discretization,
            )
        }
}

/// Planning some construction of `descs` fails.
pub open spec fn some_plan_fails<
    FN: Fn((SurfaceKind, usize), usize, usize) -> bool,
    FS: Fn((SurfaceKind, usize), usize, usize, usize) -> bool,
>(
    fits: FN,
    stable: FS,
    kind: SurfaceKind,
    descs: Seq<SurfaceDescription>,
    max_nodes: usize,
    max_subdivisions: usize,
) -> bool {
    exists|j: int|
        0 <= j < descs.len() && plan_fails(
            fits,
            stable,
            (kind, j as usize),
            (#[trigger] descs[j]).n_layers,
            max_nodes,
            max_subdivisions,
        )
}

/// Some description of `descs` has a face toward zone `z`.
pub open spec fn describes_zone(descs: Seq<SurfaceDescription>, z: usize) -> bool {
    exists|j: int|
        0 <= j < descs.len() && (#[trigger] descs[j].front_boundary == Boundary::AnotherZone(z)
            || descs[j].back_boundary == Boundary::AnotherZone(z))
}

/// Some construction of `built` has a layer that is unstable at divisor `s`.
pub open spec fn some_construction_unstable<FS: Fn((SurfaceKind, usize), usize, usize, usize) -> bool>(
    stable: FS,
    kind: SurfaceKind,
    built: Seq<ThermalSurface>,
    s: usize,
) -> bool {
    exists|j: int|
        0 <= j < built.len() && some_unstable(
            stable,
            (kind, j as usize),
            (#[trigger] built[j]).discretization.n_nodes@,
            s,
        )
}

/// Every layer of every construction of `built` is stable at divisor `s`,
/// whatever the stability test answers there.
pub open spec fn all_constructions_stable<FS: Fn((SurfaceKind, usize), usize, usize, usize) -> bool>(
    stable: FS,
    kind: SurfaceKind,
    built: Seq<ThermalSurface>,
    s: usize,
) -> bool {
    forall|j: int, k: int, r: bool|
        0 <= j < built.len() && 0 <= k < built[j].discretization.n_nodes.len() && #[trigger] stable.ensures(
            ((kind, j as usize), k as usize, built[j].discretization.n_nodes@[k], s),
            r,
        ) ==> r
}

impl ThermalModel {
    /// Plans every construction and builds the engine for `n_zones` spaces.
    ///
    /// Each surface and fenestration is planned with `Discretization::new`,
    /// keyed by its kind and position, then the engine is built as
    /// `ThermalModel::new` does, reserving its slots at the end of `state`
    /// seeded with `seed`. So every layer is as thin as the `fits` test asks
    /// with the fewest nodes; the engine runs the fewest substeps at which
    /// every construction is stable, and every layer is stable at them. A
    /// construction that cannot be planned is a `Discretization` error, a
    /// boundary that names a missing zone an `OutOfBounds` error; on an
    /// error the state is left as it was.
    pub fn build<T: Copy, FN, FS>(
        n_zones: usize,
        surfaces: &Vec<SurfaceDescription>,
        fenestrations: &Vec<SurfaceDescription>,
        fits: &FN,
        stable: &FS,
        max_nodes: usize,
        max_subdivisions: usize,
        steps_per_hour: usize,
        state: &mut Vec<T>,
        seed: T,
    ) -> (r: Result<ThermalModel, ThermalError>) where
        FN: Fn((SurfaceKind, usize), usize, usize) -> bool,
        FS: Fn((SurfaceKind, usize), usize, usize, usize) -> bool,

        requires
            steps_per_hour >= 1,
            steps_per_hour * SAFETY_FACTOR * max_subdivisions <= usize::MAX,
            old(state).len() + n_zones + (total_layers(surfaces@) + total_layers(fenestrations@))
                * max_nodes <= usize::MAX,
            descriptions_callable(
                *fits,
                *stable,
                SurfaceKind::Opaque,
                surfaces@,
                max_nodes,
                max_subdivisions,
            ),
            descriptions_callable(
                *fits,
                *stable,
                SurfaceKind::Fenestration,
                fenestrations@,
                max_nodes,
                max_subdivisions,
            ),
            stable_monotone(*stable),
        ensures
            r is Err ==> final(state)@ == old(state)@,
            r matches Err(e) ==> {
                ||| e == ThermalError::Discretization && (some_plan_fails(
                    *fits,
                    *stable,
                    SurfaceKind::Opaque,
                    surfaces@,
                    max_nodes,
                    max_subdivisions,
                ) || some_plan_fails(
                    *fits,
                    *stable,
                    SurfaceKind::Fenestration,
                    fenestrations@,
                    max_nodes,
                    max_subdivisions,
                ))
                ||| e matches ThermalError::OutOfBounds(z) && z >= n_zones && (describes_zone(
                    surfaces@,
                    z,
                ) || describes_zone(fenestrations@, z))
            },
            r matches Ok(m) ==> {
                &&& m.wf()
                &&& m.zones.len() == n_zones
                &&& m.steps_per_hour == steps_per_hour
                &&& m.first_slot == old(state).len()
                &&& final(state)@ == old(state)@ + Seq::new(
                    (m.end_slot - m.first_slot) as nat,
                    |_i: int| seed,
                )
                &&& plans_match(
                    *fits,
                    *stable,
                    SurfaceKind::Opaque,
                    m.surfaces@,
                    surfaces@,
                    max_nodes,
                    max_subdivisions,
                )
                &&& plans_match(
                    *fits,
                    *stable,
                    SurfaceKind::Fenestration,
                    m.fenestrations@,
                    fenestrations@,
                    max_nodes,
                    max_subdivisions,
                )
                &&& forall|s: usize|
                    1 <= s < m.dt_subdivisions ==> some_construction_unstable(
                        *stable,
                        SurfaceKind::Opaque,
                        m.surfaces@,
                        s,
                    ) || some_construction_unstable(
                        *stable,
                        SurfaceKind::Fenestration,
                        m.fenestrations@,
                        s,
                    )
                &&& all_constructions_stable(
                    *stable,
                    SurfaceKind::Opaque,
                    m.surfaces@,
                    m.dt_subdivisions,
                )
                &&& all_constructions_stable(
                    *stable,
                    SurfaceKind::Fenestration,
                    m.fenestrations@,
                    m.dt_subdivisions,
                )
            },
    {
        proof {
            lemma_total_layers_nonneg(surfaces@);
            lemma_total_layers_nonneg(fenestrations@);
            let a = total_layers(surfaces@);
            let b = total_layers(fenestrations@);
            assert((a + b) * max_nodes == a * max_nodes + b * max_nodes) by (nonlinear_arith);
            assert(a * max_nodes >= 0 && b * max_nodes >= 0) by (nonlinear_arith)
                requires
                    a >= 0,
                    b >= 0,
            ;
        }
        let surfs = match plan_surfaces(
            SurfaceKind::Opaque,
            surfaces,
            fits,
            stable,
            max_nodes,
            max_subdivisions,
        ) {
            Ok(v) => v,
            Err(e) => {
                return Err(e);
            },
        };
        let fens = match plan_surfaces(
            SurfaceKind::Fenestration,
            fenestrations,
            fits,
            stable,
            max_nodes,
            max_subdivisions,
        ) {
            Ok(v) => v,
            Err(e) => {
                return Err(e);
            },
        };
        proof {
            assert forall|j: int| 0 <= j < surfs@.len() implies steps_per_hour * SAFETY_FACTOR
                * (#[trigger] surfs@[j]).discretization.tstep_subdivision <= usize::MAX by {
                let t = surfs@[j].discretization.tstep_subdivision as int;
                assert(steps_per_hour * SAFETY_FACTOR * t <= steps_per_hour * SAFETY_FACTOR
                    * max_subdivisions) by (nonlinear_arith)
                    requires
                        t <= max_subdivisions,
                        steps_per_hour >= 0,
                ;
            }
            assert forall|j: int| 0 <= j < fens@.len() implies steps_per_hour * SAFETY_FACTOR
                * (#[trigger] fens@[j]).discretization.tstep_subdivision <= usize::MAX by {
                let t = fens@[j].discretization.tstep_subdivision as int;
                assert(steps_per_hour * SAFETY_FACTOR * t <= steps_per_hour * SAFETY_FACTOR
                    * max_subdivisions) by (nonlinear_arith)
                    requires
                        t <= max_subdivisions,
                        steps_per_hour >= 0,
                ;
            }
        }
        let ghost built_surfs = surfs@;
        let ghost built_fens = fens@;
        match ThermalModel::new(n_zones, surfs, fens, steps_per_hour, state, seed) {
            Err(e) => {
                proof {
                    let z = choose|z: usize| e == ThermalError::OutOfBounds(z);
                    lemma_describes_zone(built_surfs, surfaces@, z);
                    lemma_describes_zone(built_fens, fenestrations@, z);
                }
                Err(e)
            },
            Ok(m) => {
                proof {
                    lemma_plans_carry(*fits, *stable, SurfaceKind::Opaque, m.surfaces@, built_surfs,
                        surfaces@, max_nodes, max_subdivisions);
                    lemma_plans_carry(*fits, *stable, SurfaceKind::Fenestration, m.fenestrations@,
                        built_fens, fenestrations@, max_nodes, max_subdivisions);
                    lemma_fewest_substeps(*fits, *stable, m, surfaces@, fenestrations@, max_nodes,
                        max_subdivisions);
                }
                Ok(m)
            },
        }
    }
}

/// Plans every construction of `descs`, in order.
fn plan_surfaces<FN, FS>(
    kind: SurfaceKind,
    descs: &Vec<SurfaceDescription>,
    fits: &FN,
    stable: &FS,
    max_nodes: usize,
    max_subdivisions: usize,
) -> (r: Result<Vec<ThermalSurface>, ThermalError>) where
    FN: Fn((SurfaceKind, usize), usize, usize) -> bool,
    FS: Fn((SurfaceKind, usize), usize, usize, usize) -> bool,

    requires
        total_layers(descs@) * max_nodes <= usize::MAX,
        descriptions_callable(*fits, *stable, kind, descs@, max_nodes, max_subdivisions),
    ensures
        r is Err ==> r == Err::<Vec<ThermalSurface>, ThermalError>(ThermalError::Discretization)
            && some_plan_fails(*fits, *stable, kind, descs@, max_nodes, max_subdivisions),
        r matches Ok(v) ==> {
            &&& plans_match(*fits, *stable, kind, v@, descs@, max_nodes, max_subdivisions)
            &&& all_discretized(v@)
            &&& nodes_before(v@, v@.len() as int) <= total_layers(descs@) * max_nodes
        },
{
    let mut built: Vec<ThermalSurface> = Vec::new();
    let mut j: usize = 0;
    proof {
        lemma_total_layers_prefix(descs@, 0);
    }
    while j < descs.len()
        invariant
            j <= descs.len(),
            total_layers(descs@) * max_nodes <= usize::MAX,
            descriptions_callable(*fits, *stable, kind, descs@, max_nodes, max_subdivisions),
            plans_match(*fits, *stable, kind, built@, descs@.take(j as int), max_nodes, max_subdivisions),
            all_discretized(built@),
            nodes_before(built@, j as int) <= total_layers(descs@.take(j as int)) * max_nodes,
        decreases descs.len() - j,
    {
        let desc = descs[j];
        proof {
            lemma_total_layers_prefix(descs@, j as int + 1);
            assert(descs@.take(j as int + 1).drop_last() =~= descs@.take(j as int));
            lemma_total_layers_prefix(descs@, j as int);
            let p = total_layers(descs@.take(j as int));
            let l = desc.n_layers as int;
            assert(l * max_nodes <= (p + l) * max_nodes) by (nonlinear_arith)
                requires
                    p >= 0,
                    max_nodes >= 0,
            ;
            assert((p + l) * max_nodes <= total_layers(descs@) * max_nodes) by (nonlinear_arith)
                requires
                    p + l <= total_layers(descs@),
                    max_nodes >= 0,
            ;
            assert(tests_callable(*fits, *stable, (kind, j), descs@[j as int].n_layers, max_nodes,
                max_subdivisions));
        }
        let d = match Discretization::new((kind, j), desc.n_layers, fits, stable, max_nodes, max_subdivisions) {
            Ok(d) => d,
            Err(e) => {
                assert(plan_fails(*fits, *stable, (kind, j), descs@[j as int].n_layers, max_nodes,
                    max_subdivisions));
                return Err(e);
            },
        };
        let ghost before = built@;
        proof {
            lemma_sum_nodes_bounded(d.n_nodes@, max_nodes);
        }
        let mut s = ThermalSurface::new(d);
        s.set_front_boundary(desc.front_boundary);
        s.set_back_boundary(desc.back_boundary);
        built.push(s);
        proof {
            lemma_nodes_before_same(built@, before, j as int);
            let p = total_layers(descs@.take(j as int));
            let l = desc.n_layers as int;
            assert(p * max_nodes + l * max_nodes == (p + l) * max_nodes) by (nonlinear_arith);
            assert forall|i: int| 0 <= i < built@.len() implies (#[trigger] built@[i]).front_boundary
                == descs@.take(j as int + 1)[i].front_boundary by {
                if i < j {
                    assert(built@[i] == before[i]);
                }
            }
        }
        j += 1;
    }
    assert(descs@.take(j as int) =~= descs@);
    Ok(built)
}

proof fn lemma_total_layers_nonneg(descs: Seq<SurfaceDescription>)
    ensures
        total_layers(descs) >= 0,
    decreases descs.len(),
{
    if descs.len() > 0 {
        lemma_total_layers_nonneg(descs.drop_last());
    }
}

/// The layers of a prefix are at most those of the whole, and at least none.
proof fn lemma_total_layers_prefix(descs: Seq<SurfaceDescription>, j: int)
    requires
        0 <= j <= descs.len(),
    ensures
        0 <= total_layers(descs.take(j)) <= total_layers(descs),
    decreases descs.len() - j,
{
    lemma_total_layers_nonneg(descs.take(j));
    if j < descs.len() {
        lemma_total_layers_prefix(descs, j + 1);
        assert(descs.take(j + 1).drop_last() =~= descs.take(j));
    } else {
        assert(descs.take(j) =~= descs);
    }
}

/// A zone named by a built surface is named by its description.
proof fn lemma_describes_zone(built: Seq<ThermalSurface>, descs: Seq<SurfaceDescription>, z: usize)
    requires
        built.len() == descs.len(),
        forall|j: int|
            0 <= j < built.len() ==> (#[trigger] built[j]).front_boundary == descs[j].front_boundary
                && built[j].back_boundary == descs[j].back_boundary,
    ensures
        names_zone(built, z) ==> describes_zone(descs, z),
{
    if names_zone(built, z) {
        let j = choose|j: int|
            0 <= j < built.len() && (#[trigger] built[j].front_boundary == Boundary::AnotherZone(z)
                || built[j].back_boundary == Boundary::AnotherZone(z));
        assert(built[j] == built[j]);
    }
}

/// Giving planned surfaces their slots keeps them planned.
proof fn lemma_plans_carry<
    FN: Fn((SurfaceKind, usize), usize, usize) -> bool,
    FS: Fn((SurfaceKind, usize), usize, usize, usize) -> bool,
>(
    fits: FN,
    stable: FS,
    kind: SurfaceKind,
    slotted: Seq<ThermalSurface>,
    built: Seq<ThermalSurface>,
    descs: Seq<SurfaceDescription>,
    max_nodes: usize,
    max_subdivisions: usize,
)
    requires
        same_surfaces(slotted, built),
        plans_match(fits, stable, kind, built, descs, max_nodes, max_subdivisions),
    ensures
        plans_match(fits, stable, kind, slotted, descs, max_nodes, max_subdivisions),
{
    assert forall|j: int| 0 <= j < slotted.len() implies (#[trigger] slotted[j]).front_boundary
        == descs[j].front_boundary by {
        assert(built[j] == built[j]);
    }
}

/// The engine's substep count is the fewest at which every construction
/// is stable, and every layer is stable at it.
proof fn lemma_fewest_substeps<
    FN: Fn((SurfaceKind, usize), usize, usize) -> bool,
    FS: Fn((SurfaceKind, usize), usize, usize, usize) -> bool,
>(
    fits: FN,
    stable: FS,
    m: ThermalModel,
    surfaces: Seq<SurfaceDescription>,
    fenestrations: Seq<SurfaceDescription>,
    max_nodes: usize,
    max_subdivisions: usize,
)
    requires
        m.wf(),
        stable_monotone(stable),
        plans_match(fits, stable, SurfaceKind::Opaque, m.surfaces@, surfaces, max_nodes, max_subdivisions),
        plans_match(
            fits,
            stable,
            SurfaceKind::Fenestration,
            m.fenestrations@,
            fenestrations,
            max_nodes,
            max_subdivisions,
        ),
    ensures
        forall|s: usize|
            1 <= s < m.dt_subdivisions ==> some_construction_unstable(
                stable,
                SurfaceKind::Opaque,
                m.surfaces@,
                s,
            ) || some_construction_unstable(stable, SurfaceKind::Fenestration, m.fenestrations@, s),
        all_constructions_stable(stable, SurfaceKind::Opaque, m.surfaces@, m.dt_subdivisions),
        all_constructions_stable(stable, SurfaceKind::Fenestration, m.fenestrations@, m.dt_subdivisions),
{
    lemma_max_subdivision_attained(m.surfaces@);
    lemma_max_subdivision_attained(m.fenestrations@);
    assert forall|s: usize| 1 <= s < m.dt_subdivisions implies some_construction_unstable(
        stable,
        SurfaceKind::Opaque,
        m.surfaces@,
        s,
    ) || some_construction_unstable(stable, SurfaceKind::Fenestration, m.fenestrations@, s) by {
        if max_subdivision(m.surfaces@) >= max_subdivision(m.fenestrations@) {
            let j = choose|j: int|
                0 <= j < m.surfaces@.len() && (#[trigger] m.surfaces@[j]).discretization.tstep_subdivision
                    == max_subdivision(m.surfaces@);
            assert(some_unstable(stable, (SurfaceKind::Opaque, j as usize),
                m.surfaces@[j].discretization.n_nodes@, s));
        } else {
            let j = choose|j: int|
                0 <= j < m.fenestrations@.len()
                    && (#[trigger] m.fenestrations@[j]).discretization.tstep_subdivision
                    == max_subdivision(m.fenestrations@);
            assert(some_unstable(stable, (SurfaceKind::Fenestration, j as usize),
                m.fenestrations@[j].discretization.n_nodes@, s));
        }
    }
    lemma_stable_at(stable, SurfaceKind::Opaque, m.surfaces@, fits, surfaces, max_nodes,
        max_subdivisions, m.dt_subdivisions);
    lemma_stable_at(stable, SurfaceKind::Fenestration, m.fenestrations@, fits, fenestrations,
        max_nodes, max_subdivisions, m.dt_subdivisions);
}

/// Planned constructions whose divisors are at most `d` are stable at `d`.
proof fn lemma_stable_at<
    FN: Fn((SurfaceKind, usize), usize, usize) -> bool,
    FS: Fn((SurfaceKind, usize), usize, usize, usize) -> bool,
>(
    stable: FS,
    kind: SurfaceKind,
    built: Seq<ThermalSurface>,
    fits: FN,
    descs: Seq<SurfaceDescription>,
    max_nodes: usize,
    max_subdivisions: usize,
    d: usize,
)
    requires
        stable_monotone(stable),
        plans_match(fits, stable, kind, built, descs, max_nodes, max_subdivisions),
        forall|j: int|
            0 <= j < built.len() ==> (#[trigger] built[j]).discretization.tstep_subdivision <= d,
    ensures
        all_constructions_stable(stable, kind, built, d),
{
    assert forall|j: int, k: int, r: bool|
        0 <= j < built.len() && 0 <= k < built[j].discretization.n_nodes.len() && #[trigger] stable.ensures(
            ((kind, j as usize), k as usize, built[j].discretization.n_nodes@[k], d),
            r,
        ) implies r by {
        let t = built[j].discretization.tstep_subdivision;
        assert(built[j].discretization.wf());
        assert(stable.ensures(((kind, j as usize), k as usize, built[j].discretization.n_nodes@[k], t), true));
    }
}

} // verus!
