use polar_align::common::{JulianDate, WorldTransform, earth_rotation_angle, greenwich_mean_sidereal_time, hour_angle, fold_azimuth};
use polar_align::math::Angle;
use polar_align::rational::Rat;
use polar_align::solver::astap::{AstapSolver, AstapInitError};

#[test]
fn angle_degree_round_trip() {
    let d = Rat::new(45, 2);
    assert_eq!(Angle::from_degrees(d).degrees(), d);
}

#[test]
fn angle_normalize_range_and_idempotence() {
    let a = Angle::from_degrees(Rat::new(-30, 1)).normalize();
    assert_eq!(a.degrees(), Rat::new(330, 1));
    assert_eq!(a.normalize(), a);
    let b = Angle::from_degrees(Rat::new(725, 1)).normalize();
    assert_eq!(b.degrees(), Rat::new(5, 1));
    let c = Angle::from_degrees(Rat::new(360, 1)).normalize();
    assert_eq!(c.degrees(), Rat::from_int(0));
}

#[test]
fn interval_antisymmetry_is_zero() {
    let a = JulianDate::new(Rat::new(2451545, 1));
    let b = JulianDate::new(Rat::new(4903091, 2));
    let z = a.sub(b).add(b.sub(a));
    assert_eq!(z.julian(), Rat::from_int(0));
}

#[test]
fn era_at_j2000() {
    let era = earth_rotation_angle(JulianDate::j2000()).unwrap();
    assert!(era.degrees().eq_value(&Rat::new(28046061837504, 100000000000)));
}

#[test]
fn era_rate_over_one_day() {
    let r0 = earth_rotation_angle(JulianDate::j2000()).unwrap().rotations();
    let r1 = earth_rotation_angle(JulianDate::new(Rat::new(2451546, 1))).unwrap().rotations();
    let diff = r1.checked_sub(r0).unwrap();
    assert!(diff.eq_value(&Rat::new(273781191135448, 100000000000000000)));
}

#[test]
fn gmst_at_j2000() {
    let g = greenwich_mean_sidereal_time(JulianDate::j2000()).unwrap();
    assert!(g.degrees().eq_value(&Rat::new(252414560164036, 900000000000)));
}

#[test]
fn hour_angle_folding_boundaries() {
    let h = |l: i128, r: i128| hour_angle(
        Angle::from_degrees(Rat::from_int(l)),
        Angle::from_degrees(Rat::from_int(r)),
    ).unwrap().degrees();
    assert_eq!(h(10, 20), Rat::new(-10, 1).checked_add(Rat::from_int(360)).unwrap());
    assert_eq!(h(10, 20), Rat::from_int(350));
    assert_eq!(h(200, 10), Rat::from_int(-170));
    assert_eq!(h(190, 10), Rat::from_int(180));
    assert_eq!(h(0, 0), Rat::from_int(0));
}

#[test]
fn azimuth_fold_range() {
    let f = |d: i128| fold_azimuth(Angle::from_degrees(Rat::from_int(d))).unwrap().degrees();
    assert_eq!(f(-90), Rat::from_int(90));
    assert_eq!(f(180), Rat::from_int(0));
    assert_eq!(f(90), Rat::from_int(270));
}

#[test]
fn world_transform_sample_round_trip() {
    let t = WorldTransform::from_mat2_translation(
        [
            Rat::new(-6800583210471, 10000000000000000),
            Rat::new(6300323281833, 1000000000000000),
            Rat::new(6309995699828, 1000000000000000),
            Rat::new(5179551839743, 10000000000000000),
        ],
        [
            Rat::new(2345683671466, 10000000000),
            Rat::new(8814896797072, 100000000000),
        ],
    );
    let zero = (Rat::from_int(0), Rat::from_int(0));
    let sky = t.pixel_to_world(zero).unwrap();
    let (ra, dec) = sky.ra_dec();
    assert!(ra.degrees().eq_value(&Rat::new(2345683671466, 10000000000)));
    assert!(dec.degrees().eq_value(&Rat::new(8814896797072, 100000000000)));
    let (x, y) = t.world_to_pixel(sky).unwrap();
    assert!(x.eq_value(&Rat::from_int(0)));
    assert!(y.eq_value(&Rat::from_int(0)));
    let p = (Rat::from_int(100), Rat::from_int(200));
    let sky2 = t.pixel_to_world(p).unwrap();
    let (x2, y2) = t.world_to_pixel(sky2).unwrap();
    assert!(x2.eq_value(&Rat::from_int(100)));
    assert!(y2.eq_value(&Rat::from_int(200)));
}

#[test]
fn world_transform_small_matrix_round_trip() {
    let t = WorldTransform::from_mat2_translation(
        [Rat::new(1, 2), Rat::new(1, 4), Rat::new(-1, 3), Rat::new(1, 5)],
        [Rat::from_int(10), Rat::from_int(20)],
    );
    let p = (Rat::from_int(3), Rat::new(-7, 2));
    let sky = t.pixel_to_world(p).unwrap();
    let (x, y) = t.world_to_pixel(sky).unwrap();
    assert!(x.eq_value(&Rat::from_int(3)));
    assert!(y.eq_value(&Rat::new(-7, 2)));
}

#[test]
fn astap_base_path_table() {
    let lin = AstapSolver::base_path(&"linux".to_owned()).unwrap();
    assert_eq!(lin.0, "/opt/astap/".to_owned());
    assert!(lin.1.is_none());
    let win = AstapSolver::base_path(&"windows".to_owned()).unwrap();
    assert_eq!(win.0, "C:/Program Files/astap/".to_owned());
    assert_eq!(win.1, Some(".exe".to_owned()));
    let err = AstapSolver::base_path(&"plan9".to_owned());
    assert!(matches!(err, Err(AstapInitError::UnsupportedOs(s)) if s == "plan9"));
}

#[test]
fn astap_database_and_iteration_rules() {
    assert!(AstapSolver::is_database_extension(&"290".to_owned()));
    assert!(AstapSolver::is_database_extension(&"1476".to_owned()));
    assert!(!AstapSolver::is_database_extension(&"fits".to_owned()));
    assert!(!AstapSolver::iterations_exceeded(2));
    assert!(AstapSolver::iterations_exceeded(3));
}

#[test]
fn astap_creation_decision() {
    let ok = AstapSolver::new_checks(&"linux".to_owned(), true, true).unwrap();
    assert_eq!(ok.cli_path, "/opt/astap/astap_cli".to_owned());
    let win = AstapSolver::new_checks(&"windows".to_owned(), true, true).unwrap();
    assert_eq!(win.cli_path, "C:/Program Files/astap/astap_cli.exe".to_owned());
    assert!(matches!(
        AstapSolver::new_checks(&"linux".to_owned(), false, true),
        Err(AstapInitError::SolverNotFound)
    ));
    assert!(matches!(
        AstapSolver::new_checks(&"linux".to_owned(), true, false),
        Err(AstapInitError::DatabaseNotFound)
    ));
    assert!(matches!(
        AstapSolver::new_checks(&"beos".to_owned(), true, true),
        Err(AstapInitError::UnsupportedOs(s)) if s == "beos"
    ));
}

#[test]
fn era_at_half_day() {
    let era = earth_rotation_angle(JulianDate::new(Rat::new(4903091, 2))).unwrap();
    assert!(era.degrees().eq_value(&Rat::new(20190684903816761280, 200000000000000000)));
}
