//! Transient thermal simulation engine for buildings: the discrete part.
//!
//! This crate plans how constructions are discretised, lays out the state
//! slots that the engine owns, routes surface faces to thermal zones and
//! resolves the boundary temperatures that each substep hands to the
//! conduction solver. The floating-point physics runs on top of these plans.
pub mod boundary;
pub mod discretization;
pub mod error;
pub mod laws;
pub mod layout;
pub mod model;
pub mod planning;
pub mod surface;
pub mod zone;
