//! Delta compression of the physics components of a 2D rigid body.
//!
//! The components hold floating-point values, which the library does not reason about:
//! the differences are the physics crate's arithmetic, done by trusted wrappers with no
//! contract on their results. What is stated is on which values the operations are
//! safe: a rotation must be normalized, as the physics crate checks when it builds one.

use vstd::prelude::*;
use avian2d::prelude::{AngularVelocity, LinearVelocity, Position, Rotation};

verus! {

/// A component that can be replicated as a difference from an earlier value.
pub trait Diffable<Delta>: Sized {
    /// The values from and to which a difference can be taken, and to which one can be
    /// applied.
    spec fn accepts(&self) -> bool;

    /// The differences that can be applied.
    spec fn accepts_delta(delta: &Delta) -> bool;

    /// The value a receiver starts from before any full value arrived.
    fn base_value() -> Self;

    /// The difference that takes `self` to `new`.
    fn diff(&self, new: &Self) -> Delta
        requires
            self.accepts(),
            new.accepts(),
    ;

    /// Applies a difference made by `diff`.
    fn apply_diff(&mut self, delta: &Delta)
        requires
            old(self).accepts(),
            Self::accepts_delta(delta),
    ;
}

/// The physics crate's `Position`, the position of a body, carried opaquely.
#[verifier::external_type_specification]
#[verifier::external_body]
pub struct ExPosition(Position);

/// The physics crate's `Rotation`, the rotation of a body, carried opaquely.
#[verifier::external_type_specification]
#[verifier::external_body]
pub struct ExRotation(Rotation);

/// The physics crate's `LinearVelocity`, the linear velocity of a body, carried opaquely.
#[verifier::external_type_specification]
#[verifier::external_body]
pub struct ExLinearVelocity(LinearVelocity);

/// The physics crate's `AngularVelocity`, the angular velocity of a body, carried
/// opaquely.
#[verifier::external_type_specification]
#[verifier::external_body]
pub struct ExAngularVelocity(AngularVelocity);

/// What `Rotation::is_normalized` returns: whether the rotation's sine and cosine have
/// a squared length within about `2e-4` of one.
pub uninterp spec fn rotation_normalized(r: Rotation) -> bool;

impl Diffable<Position> for Position {
    open spec fn accepts(&self) -> bool {
        true
    }

    open spec fn accepts_delta(delta: &Position) -> bool {
        true
    }

    fn base_value() -> Self {
        position_default()
    }

    fn diff(&self, new: &Self) -> Position {
        position_difference(self, new)
    }

    fn apply_diff(&mut self, delta: &Position) {
        position_translate(self, delta)
    }
}

impl Diffable<Rotation> for Rotation {
    /// A rotation is accepted when it is normalized.
    open spec fn accepts(&self) -> bool {
        rotation_normalized(*self)
    }

    open spec fn accepts_delta(delta: &Rotation) -> bool {
        rotation_normalized(*delta)
    }

    fn base_value() -> (r: Self)
        ensures
            r.accepts(),
    {
        rotation_default()
    }

    fn diff(&self, new: &Self) -> Rotation {
        rotation_difference(self, new)
    }

    fn apply_diff(&mut self, delta: &Rotation) {
        rotation_rotate(self, delta)
    }
}

impl Diffable<LinearVelocity> for LinearVelocity {
    open spec fn accepts(&self) -> bool {
        true
    }

    open spec fn accepts_delta(delta: &LinearVelocity) -> bool {
        true
    }

    fn base_value() -> Self {
        linear_velocity_default()
    }

    fn diff(&self, new: &Self) -> LinearVelocity {
        linear_velocity_difference(self, new)
    }

    fn apply_diff(&mut self, delta: &LinearVelocity) {
        linear_velocity_accelerate(self, delta)
    }
}

impl Diffable<AngularVelocity> for AngularVelocity {
    open spec fn accepts(&self) -> bool {
        true
    }

    open spec fn accepts_delta(delta: &AngularVelocity) -> bool {
        true
    }

    fn base_value() -> Self {
        angular_velocity_default()
    }

    fn diff(&self, new: &Self) -> AngularVelocity {
        angular_velocity_difference(self, new)
    }

    fn apply_diff(&mut self, delta: &AngularVelocity) {
        angular_velocity_accelerate(self, delta)
    }
}

/// The rotation difference from `old` to `new`, when both are normalized; `None` when
/// either is not, where building the difference would fail the physics crate's check.
pub fn checked_rotation_diff(old: &Rotation, new: &Rotation) -> (r: Option<Rotation>)
    ensures
        r is Some <==> (rotation_normalized(*old) && rotation_normalized(*new)),
{
    if rotation_is_normalized(old) && rotation_is_normalized(new) {
        Some(old.diff(new))
    } else {
        None
    }
}

/// Applies the rotation difference `delta` to `r` when both are normalized, and says
/// whether it did; otherwise `r` is left unchanged.
pub fn checked_rotation_apply(r: &mut Rotation, delta: &Rotation) -> (applied: bool)
    ensures
        applied <==> (rotation_normalized(*old(r)) && rotation_normalized(*delta)),
        !applied ==> *final(r) == *old(r),
{
    if rotation_is_normalized(r) && rotation_is_normalized(delta) {
        r.apply_diff(delta);
        true
    } else {
        false
    }
}

/// `Rotation::is_normalized`: the result is named `rotation_normalized(*r)`.
#[verifier::external_body]
fn rotation_is_normalized(r: &Rotation) -> (b: bool)
    ensures
        b == rotation_normalized(*r),
{
    r.is_normalized()
}

/// `Position::default()`, the origin.
#[verifier::external_body]
fn position_default() -> Position {
    Position::default()
}

/// The vector from `old` to `new`: the physics crate's vector subtraction.
#[verifier::external_body]
fn position_difference(old: &Position, new: &Position) -> Position {
    Position(new.0 - old.0)
}

/// Moves `p` by `delta`: the physics crate's in-place vector addition.
#[verifier::external_body]
fn position_translate(p: &mut Position, delta: &Position) {
    p.0 += delta.0;
}

/// `Rotation::default()`, the identity rotation (cosine one, sine zero), which is
/// normalized.
#[verifier::external_body]
fn rotation_default() -> (r: Rotation)
    ensures
        rotation_normalized(r),
{
    Rotation::default()
}

/// The rotation by `old.angle_between(new)` radians, built with `Rotation::radians`.
/// For normalized rotations the angle is finite and its sine and cosine pass the
/// normalization check of `Rotation::from_sin_cos`; nothing is stated of the value,
/// which goes through the platform's trigonometry.
#[verifier::external_body]
fn rotation_difference(old: &Rotation, new: &Rotation) -> Rotation
    requires
        rotation_normalized(*old),
        rotation_normalized(*new),
{
    Rotation::radians(old.angle_between(*new))
}

/// Replaces `r` by `r.add_angle_fast(delta.as_radians())`. For normalized rotations the
/// angle is finite, the intermediate squared length is positive and finite, and the
/// renormalized result passes the check of `Rotation::from_sin_cos`; nothing is stated
/// of the value, which goes through the platform's trigonometry.
#[verifier::external_body]
fn rotation_rotate(r: &mut Rotation, delta: &Rotation)
    requires
        rotation_normalized(*old(r)),
        rotation_normalized(*delta),
{
    *r = r.add_angle_fast(delta.as_radians());
}

/// `LinearVelocity::default()`, zero velocity.
#[verifier::external_body]
fn linear_velocity_default() -> LinearVelocity {
    LinearVelocity::default()
}

/// The velocity change from `old` to `new`: the physics crate's vector subtraction.
#[verifier::external_body]
fn linear_velocity_difference(old: &LinearVelocity, new: &LinearVelocity) -> LinearVelocity {
    LinearVelocity(new.0 - old.0)
}

/// Adds `delta` to `v`: the physics crate's in-place vector addition.
#[verifier::external_body]
fn linear_velocity_accelerate(v: &mut LinearVelocity, delta: &LinearVelocity) {
    v.0 += delta.0;
}

/// `AngularVelocity::default()`, zero angular velocity.
#[verifier::external_body]
fn angular_velocity_default() -> AngularVelocity {
    AngularVelocity::default()
}

/// The angular velocity change from `old` to `new`: a floating-point subtraction.
#[verifier::external_body]
fn angular_velocity_difference(old: &AngularVelocity, new: &AngularVelocity) -> AngularVelocity {
    AngularVelocity(new.0 - old.0)
}

/// Adds `delta` to `v`: a floating-point addition in place.
#[verifier::external_body]
fn angular_velocity_accelerate(v: &mut AngularVelocity, delta: &AngularVelocity) {
    v.0 += delta.0;
}

} // verus!
