use avian2d::math::{Scalar, Vector};
use avian2d::prelude::{AngularVelocity, LinearVelocity, Position, Rotation};
use lightyear::delta::Diffable;

#[test]
fn linear_velocity_diff_round_trip_preserves_values() {
    let start = LinearVelocity(Vector::new(-12.5 as Scalar, 3.25 as Scalar));
    let end = LinearVelocity(Vector::new(0.125 as Scalar, -9.75 as Scalar));

    let delta = start.diff(&end);
    let mut round_trip = start;
    round_trip.apply_diff(&delta);

    assert_eq!(round_trip, end);
}

#[test]
fn angular_velocity_diff_round_trip_preserves_values() {
    let start = AngularVelocity(-12.5 as Scalar);
    let end = AngularVelocity(3.125 as Scalar);

    let delta = start.diff(&end);
    let mut round_trip = start;
    round_trip.apply_diff(&delta);

    assert_eq!(round_trip, end);
}

#[test]
fn position_diff_is_the_vector_between_and_round_trips() {
    let start = Position(Vector::new(1.5 as Scalar, -2.0 as Scalar));
    let end = Position(Vector::new(4.0 as Scalar, 0.25 as Scalar));
    let delta = start.diff(&end);
    assert_eq!(delta, Position(Vector::new(2.5 as Scalar, 2.25 as Scalar)));
    let mut round_trip = start;
    round_trip.apply_diff(&delta);
    assert_eq!(round_trip, end);
}

#[test]
fn base_values_are_the_defaults() {
    assert_eq!(<Position as Diffable<Position>>::base_value(), Position::default());
    assert_eq!(<Rotation as Diffable<Rotation>>::base_value(), Rotation::default());
    assert_eq!(
        <LinearVelocity as Diffable<LinearVelocity>>::base_value(),
        LinearVelocity::default()
    );
    assert_eq!(
        <AngularVelocity as Diffable<AngularVelocity>>::base_value(),
        AngularVelocity::default()
    );
}

#[test]
fn small_rotation_diff_round_trip_is_close() {
    let start = Rotation::radians(0.25 as Scalar);
    let end = Rotation::radians(0.26 as Scalar);
    let delta = start.diff(&end);
    assert!((delta.as_radians() - 0.01 as Scalar).abs() < 1e-5 as Scalar);
    // Applying uses a small-angle approximation: close, not exact.
    let mut round_trip = start;
    round_trip.apply_diff(&delta);
    assert!((round_trip.as_radians() - end.as_radians()).abs() < 1e-4 as Scalar);
}

#[test]
fn velocity_diffs_are_the_exact_differences() {
    let start = LinearVelocity(Vector::new(-12.5 as Scalar, 3.25 as Scalar));
    let end = LinearVelocity(Vector::new(0.125 as Scalar, -9.75 as Scalar));
    assert_eq!(start.diff(&end), LinearVelocity(Vector::new(12.625 as Scalar, -13.0 as Scalar)));
    let mut v = AngularVelocity(-12.5 as Scalar);
    assert_eq!(v.diff(&AngularVelocity(3.125 as Scalar)), AngularVelocity(15.625 as Scalar));
    v.apply_diff(&AngularVelocity(2.0 as Scalar));
    assert_eq!(v, AngularVelocity(-10.5 as Scalar));
}

#[test]
fn checked_rotation_operations_refuse_unnormalized_rotations() {
    let start = Rotation::radians(0.25 as Scalar);
    let end = Rotation::radians(0.26 as Scalar);
    assert!(lightyear::delta::checked_rotation_diff(&start, &end).is_some());
    assert!(lightyear::delta::checked_rotation_diff(&Rotation::PLACEHOLDER, &end).is_none());
    assert!(lightyear::delta::checked_rotation_diff(&start, &Rotation::PLACEHOLDER).is_none());

    let mut r = Rotation::PLACEHOLDER;
    assert!(!lightyear::delta::checked_rotation_apply(&mut r, &start));
    assert_eq!(r, Rotation::PLACEHOLDER);
    let mut r = start;
    assert!(!lightyear::delta::checked_rotation_apply(&mut r, &Rotation::PLACEHOLDER));
    assert_eq!(r, start);
    assert!(lightyear::delta::checked_rotation_apply(&mut r, &Rotation::radians(0.01 as Scalar)));
    assert!((r.as_radians() - 0.26 as Scalar).abs() < 1e-4 as Scalar);
}
