use heat::boundary::Boundary;
use heat::discretization::Discretization;
use heat::error::ThermalError;
use heat::model::ThermalModel;
use heat::planning::SurfaceDescription;
use heat::surface::ThermalSurface;
use heat::zone::SurfaceKind;

const MAX_DX: f64 = 0.04;

/// Thickness in metres and diffusivity in m2/s (none when massless) of
/// each layer, by construction.
fn layers(c: (SurfaceKind, usize)) -> Vec<(f64, Option<f64>)> {
    match c {
        (SurfaceKind::Opaque, 0) => vec![(0.2, Some(1e-6))],
        (SurfaceKind::Opaque, _) => vec![(0.05, Some(4e-7)), (0.02, None)],
        (SurfaceKind::Fenestration, _) => vec![(0.006, None)],
    }
}

fn build(
    surfaces: &Vec<SurfaceDescription>,
    fenestrations: &Vec<SurfaceDescription>,
    steps_per_hour: usize,
    state: &mut Vec<f64>,
) -> Result<ThermalModel, ThermalError> {
    let main_dt = 3600.0 / steps_per_hour as f64;
    let fits = |c: (SurfaceKind, usize), k: usize, n: usize| layers(c)[k].0 / n as f64 <= MAX_DX;
    let stable = |c: (SurfaceKind, usize), k: usize, n: usize, s: usize| match layers(c)[k].1 {
        None => true,
        Some(alpha) => {
            let dx = layers(c)[k].0 / n as f64;
            alpha * (main_dt / s as f64) / (dx * dx) < 0.5
        }
    };
    ThermalModel::build(1, surfaces, fenestrations, &fits, &stable, 1000, 100, steps_per_hour, state, 22.0)
}

fn desc(front: Boundary, back: Boundary, n_layers: usize) -> SurfaceDescription {
    SurfaceDescription { front_boundary: front, back_boundary: back, n_layers }
}

#[test]
fn build_plans_every_construction() {
    let surfaces = vec![
        desc(Boundary::AnotherZone(0), Boundary::Outdoor, 1),
        desc(Boundary::AnotherZone(0), Boundary::Outdoor, 2),
    ];
    let fenestrations = vec![desc(Boundary::Outdoor, Boundary::AnotherZone(0), 1)];
    let mut state = vec![5.0];
    let m = build(&surfaces, &fenestrations, 1, &mut state).unwrap();
    assert_eq!(m.surfaces[0].discretization.n_nodes, vec![5]);
    assert_eq!(m.surfaces[0].discretization.tstep_subdivision, 5);
    assert_eq!(m.surfaces[1].discretization.n_nodes, vec![2, 1]);
    assert_eq!(m.surfaces[1].discretization.tstep_subdivision, 5);
    assert_eq!(m.fenestrations[0].discretization.n_nodes, vec![1]);
    assert_eq!(m.fenestrations[0].discretization.tstep_subdivision, 1);
    // Four substeps would leave both walls unstable.
    assert_eq!(m.dt_subdivisions(), 5);
    assert!(1e-6 * (3600.0 / 4.0) / (0.04 * 0.04) >= 0.5);
    // One zone slot and 5 + 3 + 1 node slots, after the slot already there.
    assert_eq!(m.first_slot, 1);
    assert_eq!(m.end_slot, 11);
    assert_eq!(state.len(), 11);
    assert_eq!(state[0], 5.0);
    assert!(state[1..].iter().all(|t| *t == 22.0));
    assert_eq!(m.zones[0].temperature(&state), Ok(22.0));
}

#[test]
fn build_refuses_an_empty_construction() {
    let surfaces = vec![desc(Boundary::AnotherZone(0), Boundary::Outdoor, 0)];
    let mut state = vec![5.0];
    assert!(matches!(build(&surfaces, &vec![], 1, &mut state), Err(ThermalError::Discretization)));
    assert_eq!(state, vec![5.0]);
}

#[test]
fn build_refuses_a_missing_zone() {
    let surfaces = vec![desc(Boundary::AnotherZone(0), Boundary::AnotherZone(4), 1)];
    let mut state = vec![5.0];
    assert!(matches!(build(&surfaces, &vec![], 1, &mut state), Err(ThermalError::OutOfBounds(4))));
    assert_eq!(state, vec![5.0]);
}

#[test]
fn new_seeds_each_reserved_slot_and_keeps_older_ones() {
    let mut s = ThermalSurface::new(Discretization { n_nodes: vec![2, 1], tstep_subdivision: 1 });
    s.set_front_boundary(Boundary::AnotherZone(1));
    let mut state = vec![1.0, 2.0];
    let m = ThermalModel::new(2, vec![s], vec![], 1, &mut state, 22.0).unwrap();
    assert_eq!(m.first_slot, 2);
    assert_eq!(m.end_slot, 7);
    assert_eq!(state, vec![1.0, 2.0, 22.0, 22.0, 22.0, 22.0, 22.0]);
    assert_eq!(m.get_current_zones_temperatures(&state), Ok(vec![22.0, 22.0]));
}

#[test]
fn new_leaves_the_state_alone_on_error() {
    let mut s = ThermalSurface::new(Discretization { n_nodes: vec![1], tstep_subdivision: 1 });
    s.set_back_boundary(Boundary::AnotherZone(9));
    let mut state = vec![1.0, 2.0];
    assert!(matches!(
        ThermalModel::new(2, vec![s], vec![], 1, &mut state, 22.0),
        Err(ThermalError::OutOfBounds(9))
    ));
    assert_eq!(state, vec![1.0, 2.0]);
}
