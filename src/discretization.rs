//! How a construction is split into nodes and how finely the main
//! timestep must be divided for its conduction to stay stable.
use vstd::prelude::*;

use crate::error::ThermalError;
use crate::model::SECONDS_PER_HOUR;

verus! {

/// The number of nodes in all the layers of `s`.
pub open spec fn sum_nodes(s: Seq<usize>) -> int
    decreases s.len(),
{
    if s.len() == 0 {
        0
    } else {
        sum_nodes(s.drop_last()) + s.last()
    }
}

/// `n` is the smallest node count in `1..=max_nodes` that `fits` accepts for
/// layer `k` of construction `c`: a node of that layer is then no thicker
/// than allowed.
pub open spec fn first_fit<C, FN: Fn(C, usize, usize) -> bool>(
    fits: FN,
    c: C,
    k: usize,
    n: usize,
    max_nodes: usize,
) -> bool {
    &&& 1 <= n <= max_nodes
    &&& fits.ensures((c, k, n), true)
    &&& forall|m: usize| 1 <= m < n ==> fits.ensures((c, k, m), false)
}

/// `fits` refuses every node count in `1..=max_nodes` for layer `k` of
/// construction `c`.
pub open spec fn fits_none<C, FN: Fn(C, usize, usize) -> bool>(
    fits: FN,
    c: C,
    k: usize,
    max_nodes: usize,
) -> bool {
    forall|m: usize| 1 <= m <= max_nodes ==> fits.ensures((c, k, m), false)
}

/// Every layer of construction `c`, discretised with `nodes`, is stable at
/// substep divisor `s`.
pub open spec fn all_stable<C, FS: Fn(C, usize, usize, usize) -> bool>(
    stable: FS,
    c: C,
    nodes: Seq<usize>,
    s: usize,
) -> bool {
    forall|k: int| 0 <= k < nodes.len() ==> stable.ensures((c, k as usize, nodes[k], s), true)
}

/// Some layer of construction `c`, discretised with `nodes`, is unstable at
/// substep divisor `s`.
pub open spec fn some_unstable<C, FS: Fn(C, usize, usize, usize) -> bool>(
    stable: FS,
    c: C,
    nodes: Seq<usize>,
    s: usize,
) -> bool {
    exists|k: int| 0 <= k < nodes.len() && stable.ensures((c, k as usize, nodes[k], s), false)
}

/// `nodes` holds, for each of the `n_layers` layers of construction `c`, the
/// smallest node count that `fits` accepts.
pub open spec fn chosen_nodes<C, FN: Fn(C, usize, usize) -> bool>(
    fits: FN,
    c: C,
    n_layers: usize,
    max_nodes: usize,
    nodes: Seq<usize>,
) -> bool {
    &&& nodes.len() == n_layers
    &&& forall|k: int| 0 <= k < n_layers ==> first_fit(fits, c, k as usize, #[trigger] nodes[k], max_nodes)
}

/// The tests may be asked about every layer of construction `c`, every node
/// count in `1..=max_nodes` and every divisor in `1..=max_subdivisions`.
pub open spec fn tests_callable<C, FN: Fn(C, usize, usize) -> bool, FS: Fn(C, usize, usize, usize) -> bool>(
    fits: FN,
    stable: FS,
    c: C,
    n_layers: usize,
    max_nodes: usize,
    max_subdivisions: usize,
) -> bool {
    &&& forall|k: usize, n: usize|
        k < n_layers && 1 <= n <= max_nodes ==> #[trigger] fits.requires((c, k, n))
    &&& forall|k: usize, n: usize, s: usize|
        k < n_layers && 1 <= n <= max_nodes && 1 <= s <= max_subdivisions
            ==> #[trigger] stable.requires((c, k, n, s))
}

/// `d` is what planning construction `c` of `n_layers` layers gives: each
/// layer's smallest accepted node count, and the smallest divisor in
/// `1..=max_subdivisions` at which every layer is stable.
pub open spec fn planned<C, FN: Fn(C, usize, usize) -> bool, FS: Fn(C, usize, usize, usize) -> bool>(
    fits: FN,
    stable: FS,
    c: C,
    n_layers: usize,
    max_nodes: usize,
    max_subdivisions: usize,
    d: Discretization,
) -> bool {
    &&& d.wf()
    &&& chosen_nodes(fits, c, n_layers, max_nodes, d.n_nodes@)
    &&& d.tstep_subdivision <= max_subdivisions
    &&& all_stable(stable, c, d.n_nodes@, d.tstep_subdivision)
    &&& forall|s: usize| 1 <= s < d.tstep_subdivision ==> some_unstable(stable, c, d.n_nodes@, s)
}

/// Planning construction `c` fails: it has no layer, a layer that no node
/// count fits, or no divisor in `1..=max_subdivisions` makes it stable.
pub open spec fn plan_fails<C, FN: Fn(C, usize, usize) -> bool, FS: Fn(C, usize, usize, usize) -> bool>(
    fits: FN,
    stable: FS,
    c: C,
    n_layers: usize,
    max_nodes: usize,
    max_subdivisions: usize,
) -> bool {
    ||| n_layers == 0
    ||| exists|k: usize| k < n_layers && fits_none(fits, c, k, max_nodes)
    ||| exists|nodes: Seq<usize>|
        chosen_nodes(fits, c, n_layers, max_nodes, nodes) && forall|s: usize|
            1 <= s <= max_subdivisions ==> some_unstable(stable, c, nodes, s)
}

/// How one construction is discretised: the node count of each layer, front
/// layer first, and the divisor of the main timestep under which every layer
/// is stable.
pub struct Discretization {
    pub n_nodes: Vec<usize>,
    pub tstep_subdivision: usize,
}

impl Discretization {
    /// At least one layer, at least one node per layer, a divisor of at
    /// least one, and a node total that fits in `usize`.
    pub open spec fn wf(&self) -> bool {
        &&& self.n_nodes.len() >= 1
        &&& forall|k: int| 0 <= k < self.n_nodes.len() ==> self.n_nodes[k] >= 1
        &&& self.tstep_subdivision >= 1
        &&& self.total_nodes() <= usize::MAX
    }

    /// The number of nodes across the whole construction.
    pub open spec fn total_nodes(&self) -> int {
        sum_nodes(self.n_nodes@)
    }

    /// Plans the discretisation of construction `c`, of `n_layers` layers.
    ///
    /// Each layer `k` gets the smallest node count `n` in `1..=max_nodes`
    /// that `fits(c, k, n)` accepts (the node is then thin enough). The
    /// divisor is the smallest `s` in `1..=max_subdivisions` at which
    /// `stable(c, k, n, s)` accepts every layer; massless layers are meant to
    /// be accepted at any divisor. An empty construction, a layer that no
    /// count fits, or a construction that no divisor makes stable is a
    /// `Discretization` error.
    pub fn new<C: Copy, FN, FS>(
        c: C,
        n_layers: usize,
        fits: &FN,
        stable: &FS,
        max_nodes: usize,
        max_subdivisions: usize,
    ) -> (r: Result<Discretization, ThermalError>) where
        FN: Fn(C, usize, usize) -> bool,
        FS: Fn(C, usize, usize, usize) -> bool,

        requires
            n_layers * max_nodes <= usize::MAX,
            tests_callable(*fits, *stable, c, n_layers, max_nodes, max_subdivisions),
        ensures
            r matches Ok(d) ==> planned(*fits, *stable, c, n_layers, max_nodes, max_subdivisions, d),
            r is Err ==> r == Err::<Discretization, ThermalError>(ThermalError::Discretization)
                && plan_fails(*fits, *stable, c, n_layers, max_nodes, max_subdivisions),
    {
        if n_layers == 0 {
            return Err(ThermalError::Discretization);
        }
        let mut n_nodes: Vec<usize> = Vec::new();
        let mut k: usize = 0;
        while k < n_layers
            invariant
                0 < n_layers,
                k <= n_layers,
                n_nodes@.len() == k,
                forall|i: int| 0 <= i < k ==> first_fit(*fits, c, i as usize, #[trigger] n_nodes@[i], max_nodes),
                tests_callable(*fits, *stable, c, n_layers, max_nodes, max_subdivisions),
            decreases n_layers - k,
        {
            match first_fitting_count(c, fits, k, max_nodes) {
                Some(n) => n_nodes.push(n),
                None => {
                    assert(k < n_layers && fits_none(*fits, c, k, max_nodes));
                    return Err(ThermalError::Discretization);
                },
            }
            k += 1;
        }
        proof {
            lemma_sum_nodes_bounded(n_nodes@, max_nodes);
            assert(sum_nodes(n_nodes@) <= n_layers * max_nodes) by (nonlinear_arith)
                requires
                    sum_nodes(n_nodes@) <= n_nodes@.len() * max_nodes,
                    n_nodes@.len() == n_layers,
            ;
        }
        let mut s: usize = 1;
        while s <= max_subdivisions
            invariant
                1 <= s,
                s <= max_subdivisions + 1,
                n_layers > 0,
                sum_nodes(n_nodes@) <= usize::MAX,
                chosen_nodes(*fits, c, n_layers, max_nodes, n_nodes@),
                forall|t: usize| 1 <= t < s ==> some_unstable(*stable, c, n_nodes@, t),
                tests_callable(*fits, *stable, c, n_layers, max_nodes, max_subdivisions),
            decreases max_subdivisions + 1 - s,
        {
            if layers_stable(c, stable, &n_nodes, s, max_nodes, max_subdivisions) {
                return Ok(Discretization { n_nodes, tstep_subdivision: s });
            }
            if s == max_subdivisions {
                assert(some_unstable(*stable, c, n_nodes@, s));
                assert(chosen_nodes(*fits, c, n_layers, max_nodes, n_nodes@));
                return Err(ThermalError::Discretization);
            }
            s += 1;
        }
        Err(ThermalError::Discretization)
    }

    /// Whether the substep that this discretisation asks for, `3600 /
    /// (steps_per_hour * tstep_subdivision)` seconds, is shorter than
    /// `min_dt` seconds. Stability still wins: the caller only warns.
    pub fn is_below_min_dt(&self, steps_per_hour: usize, min_dt: usize) -> (r: bool)
        requires
            self.wf(),
        ensures
            r == (SECONDS_PER_HOUR < min_dt * steps_per_hour * self.tstep_subdivision),
    {
        match min_dt.checked_mul(steps_per_hour) {
            None => {
                proof {
                    lemma_product_grows(min_dt * steps_per_hour, self.tstep_subdivision as int);
                }
                true
            },
            Some(p) => match p.checked_mul(self.tstep_subdivision) {
                None => true,
                Some(q) => SECONDS_PER_HOUR < q,
            },
        }
    }

    /// The number of nodes across the whole construction.
    pub fn node_count(&self) -> (r: usize)
        requires
            self.wf(),
        ensures
            r == self.total_nodes(),
    {
        let mut total: usize = 0;
        let mut k: usize = 0;
        while k < self.n_nodes.len()
            invariant
                self.wf(),
                k <= self.n_nodes.len(),
                total == sum_nodes(self.n_nodes@.take(k as int)),
            decreases self.n_nodes.len() - k,
        {
            proof {
                lemma_sum_nodes_prefix_monotone(self.n_nodes@, k as int + 1);
                assert(self.n_nodes@.take(k as int + 1).drop_last() == self.n_nodes@.take(k as int));
            }
            total = total + self.n_nodes[k];
            k += 1;
        }
        assert(self.n_nodes@.take(k as int) == self.n_nodes@);
        total
    }
}

/// The smallest node count in `1..=max_nodes` that `fits` accepts for
/// layer `k` of construction `c`.
fn first_fitting_count<C: Copy, FN: Fn(C, usize, usize) -> bool>(
    c: C,
    fits: &FN,
    k: usize,
    max_nodes: usize,
) -> (r: Option<usize>)
    requires
        forall|n: usize| 1 <= n <= max_nodes ==> #[trigger] fits.requires((c, k, n)),
    ensures
        r matches Some(n) ==> first_fit(*fits, c, k, n, max_nodes),
        r is None ==> fits_none(*fits, c, k, max_nodes),
{
    let mut n: usize = 1;
    while n <= max_nodes
        invariant
            1 <= n <= max_nodes + 1,
            forall|m: usize| 1 <= m < n ==> fits.ensures((c, k, m), false),
            forall|n: usize| 1 <= n <= max_nodes ==> #[trigger] fits.requires((c, k, n)),
        decreases max_nodes + 1 - n,
    {
        if fits(c, k, n) {
            return Some(n);
        }
        if n == max_nodes {
            assert(fits.ensures((c, k, n), false));
            return None;
        }
        n += 1;
    }
    None
}

/// Whether every layer of construction `c`, discretised with `nodes`, is
/// stable at divisor `s`.
fn layers_stable<C: Copy, FS: Fn(C, usize, usize, usize) -> bool>(
    c: C,
    stable: &FS,
    nodes: &Vec<usize>,
    s: usize,
    max_nodes: usize,
    max_subdivisions: usize,
) -> (r: bool)
    requires
        1 <= s <= max_subdivisions,
        forall|k: int| 0 <= k < nodes.len() ==> 1 <= #[trigger] nodes@[k] <= max_nodes,
        forall|k: usize, n: usize, s: usize|
            k < nodes.len() && 1 <= n <= max_nodes && 1 <= s <= max_subdivisions
                ==> #[trigger] stable.requires((c, k, n, s)),
    ensures
        r ==> all_stable(*stable, c, nodes@, s),
        !r ==> some_unstable(*stable, c, nodes@, s),
{
    let mut k: usize = 0;
    while k < nodes.len()
        invariant
            k <= nodes.len(),
            1 <= s <= max_subdivisions,
            forall|i: int| 0 <= i < nodes.len() ==> 1 <= #[trigger] nodes@[i] <= max_nodes,
            forall|i: int| 0 <= i < k ==> stable.ensures((c, i as usize, nodes@[i], s), true),
            forall|k: usize, n: usize, s: usize|
                k < nodes.len() && 1 <= n <= max_nodes && 1 <= s <= max_subdivisions
                    ==> #[trigger] stable.requires((c, k, n, s)),
        decreases nodes.len() - k,
    {
        assert(1 <= nodes@[k as int] <= max_nodes);
        if !stable(c, k, nodes[k], s) {
            assert(stable.ensures((c, k, nodes@[k as int], s), false));
            return false;
        }
        k += 1;
    }
    true
}

/// A sequence of node counts each at most `bound` totals at most `len * bound`.
pub proof fn lemma_sum_nodes_bounded(s: Seq<usize>, bound: usize)
    requires
        forall|i: int| 0 <= i < s.len() ==> s[i] <= bound,
    ensures
        0 <= sum_nodes(s) <= s.len() * bound,
    decreases s.len(),
{
    if s.len() > 0 {
        lemma_sum_nodes_bounded(s.drop_last(), bound);
        assert((s.len() - 1) * bound + bound == s.len() * bound) by (nonlinear_arith);
    }
}

/// The node total of a prefix never exceeds that of the whole sequence.
pub proof fn lemma_sum_nodes_prefix_monotone(s: Seq<usize>, j: int)
    requires
        0 <= j <= s.len(),
    ensures
        0 <= sum_nodes(s.take(j)) <= sum_nodes(s),
    decreases s.len() - j,
{
    if j < s.len() {
        lemma_sum_nodes_prefix_monotone(s, j + 1);
        assert(s.take(j + 1).drop_last() == s.take(j));
    } else {
        assert(s.take(j) == s);
    }
    lemma_sum_nodes_nonneg(s.take(j));
}

proof fn lemma_sum_nodes_nonneg(s: Seq<usize>)
    ensures
        sum_nodes(s) >= 0,
    decreases s.len(),
{
    if s.len() > 0 {
        lemma_sum_nodes_nonneg(s.drop_last());
    }
}


/// A product past `usize::MAX` stays past it when multiplied by a positive
/// divisor.
proof fn lemma_product_grows(p: int, t: int)
    requires
        p > usize::MAX,
        t >= 1,
    ensures
        p * t > usize::MAX,
{
    assert(p * t >= p) by (nonlinear_arith)
        requires
            p > 0,
            t >= 1,
    ;
}

/// A non-empty sequence of positive node counts has a positive total.
pub proof fn lemma_sum_nodes_positive(s: Seq<usize>)
    requires
        s.len() >= 1,
        forall|k: int| 0 <= k < s.len() ==> s[k] >= 1,
    ensures
        sum_nodes(s) >= 1,
    decreases s.len(),
{
    lemma_sum_nodes_nonneg(s.drop_last());
}

} // verus!
