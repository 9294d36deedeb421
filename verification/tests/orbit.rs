use prime_walk::camera::Orbit;

#[test]
fn test_azimuth_wraps_forward() {
    let mut orbit = Orbit::new(600, 600, 800, 800);
    for _ in 0..359 {
        orbit.inc_azimuth();
    }
    assert_eq!(orbit.azimuth(), 359);
    orbit.inc_azimuth();
    assert_eq!(orbit.azimuth(), 0);
}

#[test]
fn test_azimuth_wraps_backward() {
    let mut orbit = Orbit::new(600, 600, 800, 800);
    assert_eq!(orbit.azimuth(), 0);
    orbit.dec_azimuth();
    assert_eq!(orbit.azimuth(), 359);
}

#[test]
fn test_polar_wraps_both_ways() {
    let mut orbit = Orbit::new(600, 600, 800, 800);
    orbit.dec_polar();
    assert_eq!(orbit.polar(), 359);
    orbit.inc_polar();
    assert_eq!(orbit.polar(), 0);
    for _ in 0..360 {
        orbit.inc_polar();
    }
    assert_eq!(orbit.polar(), 0);
}

#[test]
fn test_rotation_wraps_both_ways() {
    let mut orbit = Orbit::new(600, 600, 800, 800);
    orbit.dec_rotation();
    assert_eq!(orbit.rotation(), 359);
    orbit.inc_rotation();
    assert_eq!(orbit.rotation(), 0);
}

#[test]
fn test_camera_radius_floor() {
    let mut orbit = Orbit::new(1, 600, 800, 800);
    assert_eq!(orbit.camera_radius(), 1);
    orbit.dec_camera_radius();
    assert_eq!(orbit.camera_radius(), 1);
    orbit.inc_camera_radius();
    assert_eq!(orbit.camera_radius(), 2);
    orbit.dec_camera_radius();
    assert_eq!(orbit.camera_radius(), 1);
}

#[test]
fn test_focal_length_floor() {
    let mut orbit = Orbit::new(600, 1, 800, 800);
    assert_eq!(orbit.focal_length(), 1);
    orbit.dec_focal_length();
    assert_eq!(orbit.focal_length(), 1);
    orbit.inc_focal_length();
    assert_eq!(orbit.focal_length(), 2);
    orbit.dec_focal_length();
    assert_eq!(orbit.focal_length(), 1);
    orbit.dec_focal_length();
    assert_eq!(orbit.focal_length(), 1);
}

#[test]
fn test_reset_to_defaults() {
    let mut orbit = Orbit::new(600, 600, 800, 800);
    orbit.inc_azimuth();
    orbit.inc_polar();
    orbit.inc_rotation();
    orbit.inc_camera_radius();
    orbit.dec_focal_length();
    orbit.reset_to_defaults(600, 600);
    assert_eq!(orbit.azimuth(), 0);
    assert_eq!(orbit.polar(), 0);
    assert_eq!(orbit.rotation(), 0);
    assert_eq!(orbit.camera_radius(), 600);
    assert_eq!(orbit.focal_length(), 600);
}
