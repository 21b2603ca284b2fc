use heat::boundary::Boundary;
use heat::discretization::Discretization;
use heat::error::ThermalError;
use heat::model::ThermalModel;
use heat::surface::ThermalSurface;
use heat::zone::{Face, FaceRef, SurfaceKind, ThermalZone};

fn wall(nodes: Vec<usize>, front: Boundary, back: Boundary) -> ThermalSurface {
    let mut s = ThermalSurface::new(Discretization { n_nodes: nodes, tstep_subdivision: 1 });
    s.set_front_boundary(front);
    s.set_back_boundary(back);
    s
}

/// Two zones from slot 1 on, a wall of three nodes between them and a
/// window of two nodes to the outdoors: slots 1..=2 zones, 3..=5 wall,
/// 6..=7 window.
fn two_zone_model() -> ThermalModel {
    let w = wall(vec![1, 2], Boundary::AnotherZone(0), Boundary::AnotherZone(1));
    let f = wall(vec![2], Boundary::AnotherZone(1), Boundary::Outdoor);
    ThermalModel::new(2, vec![w], vec![f], 1, &mut vec![0.0], 22.0).unwrap()
}

#[test]
fn zone_temperature_reads_its_slot() {
    let mut state = vec![1.0, 2.0];
    let z = ThermalZone::from_space(0, &mut state, 22.5);
    assert_eq!(state, vec![1.0, 2.0, 22.5]);
    assert_eq!(z.temperature(&state), Ok(22.5));
    assert_eq!(z.temperature(&vec![1.0, 2.0]), Err(ThermalError::InvariantViolation));
}

#[test]
fn zone_set_temperature_writes_only_its_slot() {
    let mut state = vec![1.0];
    let z = ThermalZone::from_space(0, &mut state, 2.0);
    state.push(3.0);
    assert_eq!(z.set_temperature(&mut state, 9.5), Ok(()));
    assert_eq!(state, vec![1.0, 9.5, 3.0]);
    let far = ThermalZone::from_space(0, &mut vec![0.0; 3], 0.0);
    assert_eq!(far.set_temperature(&mut state, 7.0), Err(ThermalError::InvariantViolation));
    assert_eq!(state, vec![1.0, 9.5, 3.0]);
}

#[test]
fn current_zone_temperatures_in_zone_order() {
    let m = two_zone_model();
    let state = vec![0.0, 21.0, 25.0, 1.0, 2.0, 3.0, 4.0, 5.0];
    assert_eq!(m.get_current_zones_temperatures(&state), Ok(vec![21.0, 25.0]));
    assert_eq!(
        m.get_current_zones_temperatures(&vec![0.0, 21.0]),
        Err(ThermalError::InvariantViolation)
    );
}

#[test]
fn set_zones_temperatures_leaves_nodes_alone() {
    let m = two_zone_model();
    let mut state = vec![0.0, 21.0, 25.0, 1.0, 2.0, 3.0, 4.0, 5.0];
    assert_eq!(m.set_zones_temperatures(&mut state, &vec![19.0, 30.0]), Ok(()));
    assert_eq!(state, vec![0.0, 19.0, 30.0, 1.0, 2.0, 3.0, 4.0, 5.0]);
    let mut short = vec![0.0, 21.0];
    assert_eq!(
        m.set_zones_temperatures(&mut short, &vec![19.0, 30.0]),
        Err(ThermalError::InvariantViolation)
    );
    assert_eq!(short, vec![0.0, 21.0]);
}

#[test]
fn face_temperatures_are_the_outer_nodes() {
    let m = two_zone_model();
    let state = vec![0.0, 21.0, 25.0, 1.0, 2.0, 3.0, 4.0, 5.0];
    let face = |kind, index, face| FaceRef { kind, index, face };
    assert_eq!(m.face_temperature(face(SurfaceKind::Opaque, 0, Face::Front), &state), Ok(1.0));
    assert_eq!(m.face_temperature(face(SurfaceKind::Opaque, 0, Face::Back), &state), Ok(3.0));
    assert_eq!(m.face_temperature(face(SurfaceKind::Fenestration, 0, Face::Front), &state), Ok(4.0));
    assert_eq!(m.face_temperature(face(SurfaceKind::Fenestration, 0, Face::Back), &state), Ok(5.0));
    assert_eq!(
        m.face_temperature(face(SurfaceKind::Fenestration, 1, Face::Back), &state),
        Err(ThermalError::OutOfBounds(1))
    );
    assert_eq!(
        m.face_temperature(face(SurfaceKind::Fenestration, 0, Face::Back), &state[..5].to_vec()),
        Err(ThermalError::InvariantViolation)
    );
}

#[test]
fn every_zone_face_reads_a_node_of_its_surface() {
    let m = two_zone_model();
    let state: Vec<f64> = (0..m.end_slot).map(|i| i as f64).collect();
    let zone1: Vec<f64> = m.zones[1]
        .faces
        .iter()
        .map(|f| m.face_temperature(*f, &state).unwrap())
        .collect();
    // Zone 1 sees the back of the wall (slot 5) and the front of the window (slot 6).
    assert_eq!(zone1, vec![5.0, 6.0]);
}
