use heat::boundary::{boundary_temperature, Boundary};
use heat::discretization::Discretization;
use heat::error::ThermalError;
use heat::model::ThermalModel;
use heat::surface::ThermalSurface;
use heat::zone::{Face, FaceRef, SurfaceKind, ThermalZone};

const MAX_DX: f64 = 0.04;

/// A layer of `thickness` metres with thermal diffusivity `alpha`, or a
/// massless one when `alpha` is `None`.
struct Layer {
    thickness: f64,
    alpha: Option<f64>,
}

fn plan(layers: &[Layer], steps_per_hour: usize, max_sub: usize) -> Result<Discretization, ThermalError> {
    let main_dt = 3600.0 / steps_per_hour as f64;
    let fits = |_c: (), k: usize, n: usize| layers[k].thickness / n as f64 <= MAX_DX;
    let stable = |_c: (), k: usize, n: usize, s: usize| match layers[k].alpha {
        None => true,
        Some(alpha) => {
            let dx = layers[k].thickness / n as f64;
            alpha * (main_dt / s as f64) / (dx * dx) < 0.5
        }
    };
    Discretization::new((), layers.len(), &fits, &stable, 1000, max_sub)
}

fn massless(nodes: Vec<usize>) -> Discretization {
    Discretization { n_nodes: nodes, tstep_subdivision: 1 }
}

fn surface(d: Discretization, front: Boundary, back: Boundary) -> ThermalSurface {
    let mut s = ThermalSurface::new(d);
    s.set_front_boundary(front);
    s.set_back_boundary(back);
    s
}

#[test]
fn outdoor_boundary_gives_outdoor_temperature() {
    let zones = vec![21.0, 23.5];
    assert_eq!(boundary_temperature(&Boundary::Outdoor, &zones, 30.0), Ok(30.0));
}

#[test]
fn zone_boundary_gives_zone_temperature() {
    let zones = vec![21.0, 23.5];
    assert_eq!(boundary_temperature(&Boundary::AnotherZone(1), &zones, 30.0), Ok(23.5));
}

#[test]
fn zone_boundary_out_of_range_is_an_error() {
    let zones = vec![21.0, 23.5];
    assert_eq!(
        boundary_temperature(&Boundary::AnotherZone(5), &zones, 30.0),
        Err(ThermalError::OutOfBounds(5))
    );
}

#[test]
fn ground_boundary_is_unsupported() {
    let zones = vec![21.0];
    assert_eq!(
        boundary_temperature(&Boundary::Ground, &zones, 30.0),
        Err(ThermalError::UnsupportedBoundary)
    );
}

#[test]
fn empty_construction_is_a_discretization_error() {
    assert!(matches!(plan(&[], 1, 100), Err(ThermalError::Discretization)));
}

#[test]
fn concrete_wall_nodes_and_substeps() {
    // 0.2 m at most 0.04 m per node: five nodes of 0.04 m. With a
    // diffusivity of 1e-6 m2/s and a one-hour step, Fo = 2.25 / s, which
    // first drops below one half at s = 5.
    let d = plan(&[Layer { thickness: 0.2, alpha: Some(1e-6) }], 1, 100).unwrap();
    assert_eq!(d.n_nodes, vec![5]);
    assert_eq!(d.tstep_subdivision, 5);
    assert_eq!(d.node_count(), 5);
}

#[test]
fn chosen_nodes_are_thin_enough_and_stable() {
    let layers = [
        Layer { thickness: 0.2, alpha: Some(1e-6) },
        Layer { thickness: 0.05, alpha: Some(4e-7) },
        Layer { thickness: 0.02, alpha: None },
    ];
    let steps_per_hour = 4;
    let d = plan(&layers, steps_per_hour, 100).unwrap();
    assert_eq!(d.n_nodes, vec![5, 2, 1]);
    let dt = 3600.0 / steps_per_hour as f64 / d.tstep_subdivision as f64;
    for (layer, &n) in layers.iter().zip(d.n_nodes.iter()) {
        let dx = layer.thickness / n as f64;
        assert!(dx <= MAX_DX);
        if let Some(alpha) = layer.alpha {
            assert!(alpha * dt / (dx * dx) < 0.5);
        }
    }
    // One fewer substep would be unstable for the first layer.
    let longer = 3600.0 / steps_per_hour as f64 / (d.tstep_subdivision - 1) as f64;
    assert!(1e-6 * longer / (0.04 * 0.04) >= 0.5);
    assert_eq!(d.node_count(), 8);
}

#[test]
fn massless_layers_do_not_constrain_the_substep() {
    let d = plan(&[Layer { thickness: 0.02, alpha: None }], 60, 100).unwrap();
    assert_eq!(d.n_nodes, vec![1]);
    assert_eq!(d.tstep_subdivision, 1);
}

#[test]
fn layer_too_thick_for_the_node_limit_is_an_error() {
    let fits = |_c: (), _k: usize, n: usize| 10.0 / n as f64 <= MAX_DX;
    let stable = |_c: (), _k: usize, _n: usize, _s: usize| true;
    assert!(matches!(
        Discretization::new((), 1, &fits, &stable, 100, 10),
        Err(ThermalError::Discretization)
    ));
}

#[test]
fn no_stable_substep_is_an_error() {
    let d = plan(&[Layer { thickness: 0.2, alpha: Some(1e-6) }], 1, 4);
    assert!(matches!(d, Err(ThermalError::Discretization)));
}

#[test]
fn zone_from_space_and_push_surface() {
    let mut state = vec![0.0; 17];
    let mut z = ThermalZone::from_space(3, &mut state, 22.0);
    assert_eq!(z.index, 3);
    assert_eq!(z.temperature_state_index, 17);
    assert_eq!(state.len(), 18);
    assert_eq!(state[17], 22.0);
    assert_eq!(z.temperature(&state), Ok(22.0));
    assert!(z.faces.is_empty());
    let f = FaceRef { kind: SurfaceKind::Opaque, index: 2, face: Face::Back };
    z.push_surface(f);
    assert_eq!(z.faces, vec![f]);
}

#[test]
fn surface_node_slots() {
    let mut s = ThermalSurface::new(massless(vec![2, 3]));
    assert_eq!(s.front_boundary, Boundary::Outdoor);
    assert_eq!(s.back_boundary, Boundary::Outdoor);
    s.first_node_slot = 10;
    assert_eq!(s.front_node_slot(), 10);
    assert_eq!(s.node_slot(3), 13);
    assert_eq!(s.back_node_slot(), 14);
}

/// One zone of one space, a wall between it and the outdoors and a window
/// between it and the outdoors.
fn single_zone_model(steps_per_hour: usize) -> ThermalModel {
    let wall = surface(massless(vec![1]), Boundary::AnotherZone(0), Boundary::Outdoor);
    let window = surface(massless(vec![1]), Boundary::Outdoor, Boundary::AnotherZone(0));
    ThermalModel::new(1, vec![wall], vec![window], steps_per_hour, &mut vec![0.0; 0], 22.0).unwrap()
}

#[test]
fn single_zone_model_routes_faces_and_slots() {
    let m = single_zone_model(60);
    assert_eq!(m.zones.len(), 1);
    assert_eq!(m.zones[0].index, 0);
    assert_eq!(m.zones[0].temperature_state_index, 0);
    assert_eq!(
        m.zones[0].faces,
        vec![
            FaceRef { kind: SurfaceKind::Opaque, index: 0, face: Face::Front },
            FaceRef { kind: SurfaceKind::Fenestration, index: 0, face: Face::Back },
        ]
    );
    assert_eq!(m.surfaces[0].first_node_slot, 1);
    assert_eq!(m.fenestrations[0].first_node_slot, 2);
    assert_eq!(m.end_slot, 3);
    assert_eq!(m.dt_subdivisions(), 1);
}

#[test]
fn slots_follow_the_reserved_start() {
    let a = surface(massless(vec![2, 3]), Boundary::AnotherZone(1), Boundary::AnotherZone(0));
    let b = surface(massless(vec![4]), Boundary::Outdoor, Boundary::AnotherZone(1));
    let w = surface(massless(vec![1, 1]), Boundary::AnotherZone(0), Boundary::Outdoor);
    let m = ThermalModel::new(2, vec![a, b], vec![w], 1, &mut vec![0.0; 100], 22.0).unwrap();
    assert_eq!(m.zones[0].temperature_state_index, 100);
    assert_eq!(m.zones[1].temperature_state_index, 101);
    assert_eq!(m.surfaces[0].first_node_slot, 102);
    assert_eq!(m.surfaces[0].back_node_slot(), 106);
    assert_eq!(m.surfaces[1].first_node_slot, 107);
    assert_eq!(m.fenestrations[0].first_node_slot, 111);
    assert_eq!(m.end_slot, 113);
    assert_eq!(
        m.zones[0].faces,
        vec![
            FaceRef { kind: SurfaceKind::Opaque, index: 0, face: Face::Back },
            FaceRef { kind: SurfaceKind::Fenestration, index: 0, face: Face::Front },
        ]
    );
    assert_eq!(
        m.zones[1].faces,
        vec![
            FaceRef { kind: SurfaceKind::Opaque, index: 0, face: Face::Front },
            FaceRef { kind: SurfaceKind::Opaque, index: 1, face: Face::Back },
        ]
    );
}

#[test]
fn substeps_are_the_largest_divisor() {
    let a = surface(Discretization { n_nodes: vec![5], tstep_subdivision: 5 }, Boundary::AnotherZone(0), Boundary::Outdoor);
    let b = surface(Discretization { n_nodes: vec![2], tstep_subdivision: 3 }, Boundary::AnotherZone(0), Boundary::Outdoor);
    let w = surface(Discretization { n_nodes: vec![1], tstep_subdivision: 7 }, Boundary::Outdoor, Boundary::AnotherZone(0));
    let m = ThermalModel::new(1, vec![a, b], vec![w], 2, &mut vec![0.0; 0], 22.0).unwrap();
    assert_eq!(m.dt_subdivisions(), 7);
    assert_eq!(m.main_dt(), (3600, 2));
    assert_eq!(m.dt(), (3600, 14));
}

#[test]
fn empty_model_takes_one_substep() {
    let m = ThermalModel::new(0, vec![], vec![], 4, &mut vec![0.0; 0], 22.0).unwrap();
    assert_eq!(m.dt_subdivisions(), 1);
    assert_eq!(m.end_slot, 0);
}

#[test]
fn boundary_naming_a_missing_zone_is_out_of_bounds() {
    let a = surface(massless(vec![1]), Boundary::AnotherZone(0), Boundary::AnotherZone(3));
    assert!(matches!(
        ThermalModel::new(2, vec![a], vec![], 1, &mut vec![0.0; 0], 22.0),
        Err(ThermalError::OutOfBounds(3))
    ));
    let w = surface(massless(vec![1]), Boundary::AnotherZone(2), Boundary::Outdoor);
    assert!(matches!(
        ThermalModel::new(2, vec![], vec![w], 1, &mut vec![0.0; 0], 22.0),
        Err(ThermalError::OutOfBounds(2))
    ));
}

#[test]
fn substeps_add_up_to_the_main_step() {
    for steps_per_hour in [1usize, 4, 6, 20, 60] {
        let a = surface(Discretization { n_nodes: vec![3], tstep_subdivision: 7 }, Boundary::AnotherZone(0), Boundary::Outdoor);
        let m = ThermalModel::new(1, vec![a], vec![], steps_per_hour, &mut vec![0.0; 0], 22.0).unwrap();
        let (num, den) = m.dt();
        let (main_num, main_den) = m.main_dt();
        let mut elapsed = 0.0;
        for _ in 0..m.dt_subdivisions() {
            elapsed += num as f64 / den as f64;
        }
        let main_dt = main_num as f64 / main_den as f64;
        assert!((elapsed - main_dt).abs() < 1e-9);
        assert_eq!(m.dt_subdivisions() * num * steps_per_hour, 3600 * den);
    }
}

#[test]
fn coarse_models_are_flagged() {
    assert!(single_zone_model(1).is_too_coarse());
    assert!(single_zone_model(5).is_too_coarse());
    assert!(!single_zone_model(6).is_too_coarse());
}

#[test]
fn get_thermal_zone_in_and_out_of_range() {
    let m = single_zone_model(1);
    assert_eq!(m.get_thermal_zone(0).unwrap().index, 0);
    assert!(matches!(m.get_thermal_zone(1), Err(ThermalError::OutOfBounds(1))));
}

#[test]
fn air_temperatures_of_each_face() {
    let a = surface(massless(vec![1]), Boundary::AnotherZone(1), Boundary::Outdoor);
    let b = surface(massless(vec![1]), Boundary::AnotherZone(0), Boundary::AnotherZone(1));
    let w = surface(massless(vec![1]), Boundary::Outdoor, Boundary::AnotherZone(0));
    let m = ThermalModel::new(2, vec![a, b], vec![w], 1, &mut vec![0.0; 0], 22.0).unwrap();
    let (surfs, fens) = m.air_temperatures(Some(30.0), &vec![21.0, 24.0]).unwrap();
    assert_eq!(surfs, vec![(24.0, 30.0), (21.0, 24.0)]);
    assert_eq!(fens, vec![(30.0, 21.0)]);
}

#[test]
fn missing_dry_bulb_is_missing_weather() {
    let m = single_zone_model(1);
    assert!(matches!(
        m.air_temperatures::<f64>(None, &vec![22.0]),
        Err(ThermalError::MissingWeather)
    ));
}

#[test]
fn ground_face_is_unsupported_at_march() {
    let a = surface(massless(vec![1]), Boundary::AnotherZone(0), Boundary::Ground);
    let m = ThermalModel::new(1, vec![a], vec![], 1, &mut vec![0.0; 0], 22.0).unwrap();
    assert!(matches!(
        m.air_temperatures(Some(30.0), &vec![22.0]),
        Err(ThermalError::UnsupportedBoundary)
    ));
    let w = surface(massless(vec![1]), Boundary::Ground, Boundary::AnotherZone(0));
    let m = ThermalModel::new(1, vec![], vec![w], 1, &mut vec![0.0; 0], 22.0).unwrap();
    assert!(matches!(
        m.air_temperatures(Some(30.0), &vec![22.0]),
        Err(ThermalError::UnsupportedBoundary)
    ));
}

#[test]
fn substeps_below_the_minimum_are_flagged() {
    // One step per hour in 60 substeps: exactly 60 s, not below.
    let d = Discretization { n_nodes: vec![1], tstep_subdivision: 60 };
    assert!(!d.is_below_min_dt(1, 60));
    // In 61 substeps: about 59 s.
    let d = Discretization { n_nodes: vec![1], tstep_subdivision: 61 };
    assert!(d.is_below_min_dt(1, 60));
    // Six steps per hour in 11 substeps: about 54.5 s.
    let d = Discretization { n_nodes: vec![1], tstep_subdivision: 11 };
    assert!(d.is_below_min_dt(6, 60));
    assert!(!d.is_below_min_dt(6, 54));
    // A product past the machine's integers is far below any minimum.
    assert!(d.is_below_min_dt(usize::MAX, 2));
}
