//! A surface or fenestration as the engine holds it.
use vstd::prelude::*;

use crate::boundary::Boundary;
use crate::discretization::Discretization;

verus! {

/// One-dimensional conduction through a layered surface or fenestration:
/// what it faces on each side, how it is discretised, and where its node
/// temperatures live in the state.
pub struct ThermalSurface {
    pub front_boundary: Boundary,
    pub back_boundary: Boundary,
    pub discretization: Discretization,
    /// The state slot of node 0; node `k` lives in the slot `k` places on.
    pub first_node_slot: usize,
}

impl ThermalSurface {
    /// The number of nodes, and of state slots, of this surface.
    pub open spec fn n_nodes(&self) -> int {
        self.discretization.total_nodes()
    }

    /// A surface discretised as `discretization`, facing the outdoors on
    /// both sides until its boundaries are set. Its node slots are assigned
    /// when a model is built from it.
    pub fn new(discretization: Discretization) -> (s: ThermalSurface)
        ensures
            s.front_boundary == Boundary::Outdoor,
            s.back_boundary == Boundary::Outdoor,
            s.discretization == discretization,
            s.first_node_slot == 0,
    {
        ThermalSurface {
            front_boundary: Boundary::Outdoor,
            back_boundary: Boundary::Outdoor,
            discretization,
            first_node_slot: 0,
        }
    }

    pub fn set_front_boundary(&mut self, b: Boundary)
        ensures
            *final(self) == (ThermalSurface { front_boundary: b, ..*old(self) }),
    {
        self.front_boundary = b;
    }

    pub fn set_back_boundary(&mut self, b: Boundary)
        ensures
            *final(self) == (ThermalSurface { back_boundary: b, ..*old(self) }),
    {
        self.back_boundary = b;
    }

    /// The state slot of node `k`.
    pub fn node_slot(&self, k: usize) -> (r: usize)
        requires
            k < self.n_nodes(),
            self.first_node_slot + self.n_nodes() <= usize::MAX,
        ensures
            r == self.first_node_slot + k,
    {
        self.first_node_slot + k
    }

    /// The state slot of node 0, on the front face.
    pub fn front_node_slot(&self) -> (r: usize)
        ensures
            r == self.first_node_slot,
    {
        self.first_node_slot
    }

    /// The state slot of the last node, on the back face.
    pub fn back_node_slot(&self) -> (r: usize)
        requires
            self.discretization.wf(),
            self.first_node_slot + self.n_nodes() <= usize::MAX,
        ensures
            r == self.first_node_slot + self.n_nodes() - 1,
    {
        proof {
            crate::discretization::lemma_sum_nodes_positive(self.discretization.n_nodes@);
        }
        self.first_node_slot + self.discretization.node_count() - 1
    }
}

} // verus!
