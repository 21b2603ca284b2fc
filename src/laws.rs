//! Properties of a built engine that hold across its functions.
use vstd::prelude::*;

use crate::layout::{
    nodes_before,
    all_discretized,
    slots_from,
    lemma_nodes_before_monotone,
    lemma_max_subdivision_attained,
};
use crate::model::{ThermalModel, SECONDS_PER_HOUR};
use crate::surface::ThermalSurface;

verus! {

/// The time that `k` substeps of `num / den` seconds take, over the common
/// denominator `den`.
pub open spec fn elapsed(k: nat, num: int) -> int
    decreases k,
{
    if k == 0 {
        0
    } else {
        elapsed((k - 1) as nat, num) + num
    }
}

/// One main step lasts `3600 / steps_per_hour` seconds: the
/// `dt_subdivisions` substeps of `dt` seconds each that it is marched in add
/// up to exactly that.
pub proof fn lemma_substeps_fill_main_step(m: ThermalModel)
    requires
        m.wf(),
    ensures
        m.dt_subdivisions >= 1,
        elapsed(m.dt_subdivisions as nat, m.spec_dt().0) * m.steps_per_hour == SECONDS_PER_HOUR
            * m.spec_dt().1,
{
    lemma_max_subdivision_attained(m.surfaces@);
    lemma_max_subdivision_attained(m.fenestrations@);
    lemma_elapsed(m.dt_subdivisions as nat, SECONDS_PER_HOUR as int);
    let k = m.dt_subdivisions as int;
    let n = m.steps_per_hour as int;
    assert(k * 3600 * n == 3600 * (n * k)) by (nonlinear_arith);
}

/// `k` substeps of `num / den` seconds take `k * num / den` seconds.
pub proof fn lemma_elapsed(k: nat, num: int)
    ensures
        elapsed(k, num) == k * num,
    decreases k,
{
    if k > 0 {
        let p = (k - 1) as nat;
        lemma_elapsed(p, num);
        assert(elapsed(k, num) == elapsed(p, num) + num);
        assert(p * num + num == k * num) by (nonlinear_arith)
            requires
                p + 1 == k,
        ;
    } else {
        assert(k * num == 0) by (nonlinear_arith)
            requires
                k == 0,
        ;
    }
}

/// The state slot of node `k` of surface `s`.
pub open spec fn node_slot_of(s: ThermalSurface, k: int) -> int {
    s.first_node_slot + k
}

/// Every construction marches at a substep no longer than the one that its
/// own discretisation found stable: with `d` substeps per main step instead
/// of its divisor `t`, a substep lasts `3600 / (n * d) <= 3600 / (n * t)`
/// seconds.
pub proof fn lemma_substep_within_stability(m: ThermalModel)
    requires
        m.wf(),
    ensures
        forall|j: int|
            0 <= j < m.surfaces.len() ==> substep_within(
                m,
                (#[trigger] m.surfaces@[j]).discretization.tstep_subdivision as int,
            ),
        forall|j: int|
            0 <= j < m.fenestrations.len() ==> substep_within(
                m,
                (#[trigger] m.fenestrations@[j]).discretization.tstep_subdivision as int,
            ),
{
    lemma_max_subdivision_attained(m.surfaces@);
    lemma_max_subdivision_attained(m.fenestrations@);
    assert forall|t: int| 1 <= t <= m.dt_subdivisions implies #[trigger] substep_within(m, t) by {
        let n = m.steps_per_hour as int;
        let d = m.dt_subdivisions as int;
        assert(3600 * (n * t) <= 3600 * (n * d)) by (nonlinear_arith)
            requires
                1 <= t <= d,
                n >= 1,
        ;
    }
}

/// The model's substep, `3600 / (n * dt_subdivisions)` seconds, is no longer
/// than `3600 / (n * t)` seconds, and `t` is a divisor of at least one.
pub open spec fn substep_within(m: ThermalModel, t: int) -> bool {
    &&& 1 <= t <= m.dt_subdivisions
    &&& m.spec_dt().0 * (m.steps_per_hour * t) <= SECONDS_PER_HOUR * m.spec_dt().1
}

/// Every zone temperature and every node has a state slot of its own: zone
/// slots come first, then the surfaces' nodes, then the fenestrations'
/// nodes, all within the reserved range, and no two nodes share a slot.
pub proof fn lemma_slots_distinct(m: ThermalModel)
    requires
        m.wf(),
    ensures
        forall|z: int|
            0 <= z < m.zones.len() ==> m.first_slot <= (#[trigger] m.zones@[z]).temperature_state_index
                < m.surface_slots_start(),
        forall|j: int, k: int|
            0 <= j < m.surfaces.len() && 0 <= k < m.surfaces@[j].n_nodes() ==> m.surface_slots_start()
                <= #[trigger] node_slot_of(m.surfaces@[j], k) < m.fenestration_slots_start(),
        forall|j: int, k: int|
            0 <= j < m.fenestrations.len() && 0 <= k < m.fenestrations@[j].n_nodes()
                ==> m.fenestration_slots_start() <= #[trigger] node_slot_of(m.fenestrations@[j], k)
                < m.end_slot,
        forall|j1: int, k1: int, j2: int, k2: int|
            0 <= j1 < m.surfaces.len() && 0 <= k1 < m.surfaces@[j1].n_nodes() && 0 <= j2
                < m.surfaces.len() && 0 <= k2 < m.surfaces@[j2].n_nodes() && (j1 != j2 || k1 != k2)
                ==> #[trigger] node_slot_of(m.surfaces@[j1], k1) != #[trigger] node_slot_of(
                m.surfaces@[j2],
                k2,
            ),
        forall|j1: int, k1: int, j2: int, k2: int|
            0 <= j1 < m.fenestrations.len() && 0 <= k1 < m.fenestrations@[j1].n_nodes() && 0 <= j2
                < m.fenestrations.len() && 0 <= k2 < m.fenestrations@[j2].n_nodes() && (j1 != j2
                || k1 != k2) ==> #[trigger] node_slot_of(m.fenestrations@[j1], k1)
                != #[trigger] node_slot_of(m.fenestrations@[j2], k2),
{
    lemma_slots_in_place(m.surfaces@, m.surface_slots_start());
    lemma_slots_in_place(m.fenestrations@, m.fenestration_slots_start());
    lemma_nodes_before_monotone(m.surfaces@, 0, m.surfaces.len() as int);
}

/// For surfaces whose slots follow one another from `start`, node `k` of
/// surface `j` lies within the surface's own range, and the ranges of two
/// surfaces do not meet.
proof fn lemma_slots_in_place(s: Seq<ThermalSurface>, start: int)
    requires
        all_discretized(s),
        slots_from(s, start),
    ensures
        forall|j: int, k: int|
            0 <= j < s.len() && 0 <= k < s[j].n_nodes() ==> start + nodes_before(s, j)
                <= #[trigger] node_slot_of(s[j], k) < start + nodes_before(s, j + 1) && start
                <= node_slot_of(s[j], k) < start + nodes_before(s, s.len() as int),
        forall|j1: int, k1: int, j2: int, k2: int|
            0 <= j1 < s.len() && 0 <= k1 < s[j1].n_nodes() && 0 <= j2 < s.len() && 0 <= k2
                < s[j2].n_nodes() && (j1 != j2 || k1 != k2) ==> #[trigger] node_slot_of(s[j1], k1)
                != #[trigger] node_slot_of(s[j2], k2),
{
    assert forall|j: int, k: int| 0 <= j < s.len() && 0 <= k < s[j].n_nodes() implies start
        + nodes_before(s, j) <= #[trigger] node_slot_of(s[j], k) < start + nodes_before(s, j + 1)
        && start <= node_slot_of(s[j], k) < start + nodes_before(s, s.len() as int) by {
        lemma_nodes_before_monotone(s, 0, j);
        lemma_nodes_before_monotone(s, j + 1, s.len() as int);
    }
    assert forall|j1: int, k1: int, j2: int, k2: int|
        0 <= j1 < s.len() && 0 <= k1 < s[j1].n_nodes() && 0 <= j2 < s.len() && 0 <= k2
            < s[j2].n_nodes() && (j1 != j2 || k1 != k2) implies #[trigger] node_slot_of(s[j1], k1)
        != #[trigger] node_slot_of(s[j2], k2) by {
        if j1 < j2 {
            lemma_nodes_before_monotone(s, j1 + 1, j2);
            assert(node_slot_of(s[j1], k1) < start + nodes_before(s, j1 + 1));
            assert(start + nodes_before(s, j2) <= node_slot_of(s[j2], k2));
        } else if j2 < j1 {
            lemma_nodes_before_monotone(s, j2 + 1, j1);
            assert(node_slot_of(s[j2], k2) < start + nodes_before(s, j2 + 1));
            assert(start + nodes_before(s, j1) <= node_slot_of(s[j1], k1));
        }
    }
}

} // verus!
