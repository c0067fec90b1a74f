//! Finding the ground under a wheel.
use crate::bodies::{ColliderHandle, RigidBody};
use crate::math::{Isometry, Point, Rotation, Vector};
use crate::scalar::{Real, ONE_BITS};
use crate::transcendental::{cos, exp, rotation_between, MAX_EXPONENT_BITS};
use crate::vehicle::controller::DynamicShapeCastVehicleController;
use crate::vehicle::wheel::{ShapeCastInfo, Wheel};
use vstd::prelude::*;

verus! {

/// A cylinder whose axis is its local `y` axis.
#[derive(Clone, Copy, Debug, PartialEq, Eq, Structural)]
pub struct Cylinder {
    pub half_height: Real,
    pub radius: Real,
}

/// How a shape is cast.
#[derive(Clone, Copy, Debug, PartialEq, Eq, Structural)]
pub struct ShapeCastOptions {
    pub max_time_of_impact: Real,
    pub target_distance: Real,
    /// Whether a shape that starts in penetration hits even where it moves out.
    pub stop_at_penetration: bool,
    pub compute_impact_geometry_on_penetration: bool,
}

/// The cast of a wheel's cylinder against the world.
#[derive(Clone, Copy, Debug, PartialEq, Eq, Structural)]
pub struct ShapeCastRequest {
    pub position: Isometry,
    pub direction: Vector,
    pub cylinder: Cylinder,
    pub options: ShapeCastOptions,
}

/// The first hit of a cast.
#[derive(Clone, Copy, Debug, PartialEq, Eq, Structural)]
pub struct ShapeCastHit {
    pub time_of_impact: Real,
    /// The world-space point hit.
    pub witness1: Point,
    /// The witness point on the cylinder.
    pub witness2: Point,
    /// The outward normal of the surface hit.
    pub normal1: Vector,
}

pub open spec fn spec_min_norm() -> Real {
    Real::ratio(1, 100_000)
}

/// The length under which a vector has no direction.
#[verifier::when_used_as_spec(spec_min_norm)]
pub fn min_norm() -> (r: Real)
    ensures
        r == spec_min_norm(),
{
    Real::ratio(1, 100_000)
}

impl Wheel {
    /// The axis of the wheel's cylinder.
    pub open spec fn cast_axle(self) -> Vector {
        match self.wheel_axle_ws.try_normalize(min_norm()) {
            Some(axle) => axle,
            None => Vector::ith(1, Real::one()),
        }
    }

    /// The direction that the wheel's cylinder is cast along.
    pub open spec fn cast_direction(self) -> Vector {
        match self.wheel_direction_ws.try_normalize(min_norm()) {
            Some(direction) => direction,
            None => self.wheel_direction_ws,
        }
    }

    /// The center of the cylinder when the cast begins: one radius behind the
    /// hard point, so that its near side sits at the hard point.
    pub open spec fn cast_start(self) -> Point {
        self.shape_cast_info.hard_point_ws.sub(self.cast_direction().scale(self.radius))
    }

    /// The rotation that turns the axis of a cylinder into the wheel's axle.
    pub open spec fn cast_rotation(self) -> Rotation {
        let axle = self.cast_axle();
        match crate::transcendental::fixed_rotation_between(
            (0, ONE_BITS, 0),
            (axle.x.bits, axle.y.bits, axle.z.bits),
        ) {
            Some(q) => crate::transcendental::rotation_of_units(q),
            None => Rotation::identity(),
        }
    }

    /// The cast that looks for the ground under the wheel.
    pub open spec fn cast_request(self) -> ShapeCastRequest {
        ShapeCastRequest {
            position: Isometry {
                translation: self.cast_start(),
                rotation: self.cast_rotation(),
            },
            direction: self.cast_direction(),
            cylinder: Cylinder {
                half_height: self.width.mul(Real::ratio(1, 2)),
                radius: self.radius,
            },
            options: ShapeCastOptions {
                max_time_of_impact: self.suspension_rest_length.add(self.radius).add(self.radius),
                target_distance: Real::zero(),
                stop_at_penetration: false,
                compute_impact_geometry_on_penetration: true,
            },
        }
    }

    pub open spec fn spec_max_suspension_length(self) -> Real {
        self.suspension_rest_length.add(self.max_suspension_travel)
    }

    /// The full extension of the suspension.
    #[verifier::when_used_as_spec(spec_max_suspension_length)]
    pub fn max_suspension_length(self) -> (r: Real)
        ensures
            r == self.spec_max_suspension_length(),
    {
        self.suspension_rest_length.add(self.max_suspension_travel)
    }

    pub open spec fn spec_min_suspension_length(self) -> Real {
        if self.max_suspension_travel.lt(Real::zero()) {
            Real::zero()
        } else {
            Real::zero().max(self.suspension_rest_length.sub(self.max_suspension_travel))
        }
    }

    /// The full compression of the suspension: as far before its resting
    /// length as it travels, and never past the hard point. A travel that is
    /// negative sets no stop but the hard point.
    #[verifier::when_used_as_spec(spec_min_suspension_length)]
    pub fn min_suspension_length(self) -> (r: Real)
        ensures
            r == self.spec_min_suspension_length(),
    {
        if self.max_suspension_travel.lt(Real::zero()) {
            Real::zero()
        } else {
            Real::zero().max(self.suspension_rest_length.sub(self.max_suspension_travel))
        }
    }

    /// Whether the wheel stands on what it hit: its suspension points down and
    /// the surface points up, each within the angle of the given cosine.
    pub open spec fn stands_on(
        self,
        hit: ShapeCastHit,
        world_up: Vector,
        suspension_cos: Real,
        surface_cos: Real,
    ) -> bool {
        &&& suspension_cos.lt(self.cast_direction().dot(world_up).neg())
        &&& surface_cos.lt(hit.normal1.dot(world_up))
    }

    /// The hit, if the wheel stands on it.
    pub open spec fn accepted(
        self,
        hit: Option<(ColliderHandle, ShapeCastHit)>,
        world_up: Vector,
        suspension_cos: Real,
        surface_cos: Real,
    ) -> Option<(ColliderHandle, ShapeCastHit)> {
        match hit {
            Some((_, h)) if self.stands_on(h, world_up, suspension_cos, surface_cos) => hit,
            _ => None,
        }
    }

    /// The normal along which the suspension pushes: that of the surface hit,
    /// or the suspension's own axis where the surface is more than sixty
    /// degrees off it.
    pub open spec fn push_normal(self, hit: ShapeCastHit) -> Vector {
        let axial = self.wheel_direction_ws.neg();
        if Real::ratio(1, 2).lt(hit.normal1.dot(axial)) {
            hit.normal1
        } else {
            axial
        }
    }

    /// The suspension length at which the cast hit, negative past the hard point.
    pub open spec fn hit_length(self, hit: ShapeCastHit) -> Real {
        hit.time_of_impact.sub(self.radius)
    }

    /// The part of a push along `normal` that the suspension's axis feels.
    pub open spec fn push_slope(self, normal: Vector) -> Real {
        normal.dot(self.wheel_direction_ws)
    }

    /// Whether a push along `normal` is too oblique for the suspension.
    pub open spec fn push_is_oblique(self, normal: Vector) -> bool {
        Real::ratio(1, 10).neg().le(self.push_slope(normal))
    }

    /// The wheel standing on what it hit.
    pub open spec fn grounded(
        self,
        collider: ColliderHandle,
        hit: ShapeCastHit,
        chassis: RigidBody,
    ) -> Wheel {
        let normal = self.push_normal(hit);
        let length = self.hit_length(hit);
        let inv = Real::one().neg().div(self.push_slope(normal));
        let proj_vel = normal.dot(chassis.velocity_at_point(hit.witness1));
        Wheel {
            shape_cast_info: ShapeCastInfo {
                contact_normal_ws: normal,
                ground_normal_ws: normal,
                contact_point_ws: hit.witness1,
                suspension_length: length.clamp(
                    self.min_suspension_length(),
                    self.max_suspension_length(),
                ),
                hard_point_ws: self.shape_cast_info.hard_point_ws,
                is_in_contact: true,
                ground_object: Some(collider),
                bottomed_out: length.lt(Real::zero()),
                bottom_out_overshoot: length.neg().max(Real::zero()),
                last_toi: hit.time_of_impact,
                last_cast_offset: self.radius,
                last_witness2: hit.witness2,
                last_cast_start: self.cast_start(),
                last_axle_ws: self.cast_axle(),
            },
            suspension_relative_velocity: if self.push_is_oblique(normal) {
                Real::zero()
            } else {
                proj_vel.mul(inv)
            },
            clipped_inv_contact_dot_suspension: if self.push_is_oblique(normal) {
                Real::ratio(10, 1)
            } else {
                inv
            },
            ..self
        }
    }

    /// The length of a suspension that hangs free, `decay` being the share of
    /// the way to its full extension that is left.
    pub open spec fn drooped_length(self, decay: Real) -> Real {
        self.shape_cast_info.suspension_length.add(
            self.max_suspension_length().sub(self.shape_cast_info.suspension_length).mul(
                Real::one().sub(decay),
            ),
        )
    }

    /// The wheel hanging in the air.
    pub open spec fn airborne(self, decay: Real) -> Wheel {
        Wheel {
            shape_cast_info: ShapeCastInfo {
                contact_normal_ws: self.wheel_direction_ws.neg(),
                ground_normal_ws: self.wheel_direction_ws.neg(),
                suspension_length: self.drooped_length(decay),
                ground_object: None,
                bottomed_out: false,
                bottom_out_overshoot: Real::zero(),
                ..self.shape_cast_info
            },
            suspension_relative_velocity: Real::zero(),
            clipped_inv_contact_dot_suspension: Real::one(),
            ..self
        }
    }

    /// Whether the suspension has neither a negative resting length nor a
    /// negative travel.
    pub open spec fn can_travel(self) -> bool {
        Real::zero().le(self.suspension_rest_length) && Real::zero().le(self.max_suspension_travel)
    }

    /// Whether the suspension is no shorter than nothing nor longer than its
    /// full extension, overshoots exactly when it is bottomed out, and pushes
    /// if anything.
    pub open spec fn is_sound(self) -> bool {
        let info = self.shape_cast_info;
        &&& Real::zero().le(info.suspension_length)
        &&& info.suspension_length.le(self.max_suspension_length())
        &&& Real::zero().le(info.bottom_out_overshoot)
        &&& info.bottomed_out <==> Real::zero().lt(info.bottom_out_overshoot)
        &&& Real::zero().le(self.wheel_suspension_force)
    }

    /// Whether the wheel is sound, and waits for its cast.
    pub open spec fn is_placed(self) -> bool {
        self.is_sound() && !self.shape_cast_info.is_in_contact
    }

    /// Whether the wheel is sound, is in contact exactly when it has ground,
    /// and is bottomed out in contact only.
    pub open spec fn is_settled(self) -> bool {
        let info = self.shape_cast_info;
        &&& self.is_sound()
        &&& info.is_in_contact <==> info.ground_object is Some
        &&& info.bottomed_out ==> info.is_in_contact
    }

    /// The wheel after its cast, filtered by the given cosines.
    pub open spec fn after_cast(
        self,
        hit: Option<(ColliderHandle, ShapeCastHit)>,
        world_up: Vector,
        chassis: RigidBody,
        suspension_cos: Real,
        surface_cos: Real,
        decay: Real,
    ) -> Wheel {
        match self.accepted(hit, world_up, suspension_cos, surface_cos) {
            Some((collider, h)) => self.grounded(collider, h, chassis),
            None => self.airborne(decay),
        }
    }

    fn cast_axes(&self) -> (r: (Vector, Vector))
        ensures
            r == (self.cast_axle(), self.cast_direction()),
    {
        let axle = match self.wheel_axle_ws.try_normalize(min_norm()) {
            Some(axle) => axle,
            None => Vector::ith(1, Real::one()),
        };
        let direction = match self.wheel_direction_ws.try_normalize(min_norm()) {
            Some(direction) => direction,
            None => self.wheel_direction_ws,
        };
        (axle, direction)
    }

    fn accepts(
        &self,
        hit: Option<(ColliderHandle, ShapeCastHit)>,
        world_up: Vector,
        suspension_cos: Real,
        surface_cos: Real,
    ) -> (r: bool)
        ensures
            r == (self.accepted(hit, world_up, suspension_cos, surface_cos) is Some),
    {
        let (_, direction) = self.cast_axes();
        let suspension_downward = direction.dot(world_up).neg();
        match hit {
            Some((_, h)) => suspension_cos.lt(suspension_downward) && surface_cos.lt(
                h.normal1.dot(world_up),
            ),
            None => false,
        }
    }

    /// Prepares the cast that looks for the ground under the wheel.
    pub fn shape_cast_request(&self) -> (r: ShapeCastRequest)
        ensures
            r == self.cast_request(),
    {
        let (axle, direction) = self.cast_axes();
        proof {
            lemma_cast_axle_bounded(*self);
        }
        let cyl_rot = match rotation_between(Vector::ith(1, Real::one()), axle) {
            Some(rotation) => rotation,
            None => Rotation::identity(),
        };
        let r = self.radius;
        let raylen = self.suspension_rest_length.add(r);
        let offset = r;
        ShapeCastRequest {
            position: Isometry {
                translation: self.shape_cast_info.hard_point_ws.sub(direction.scale(offset)),
                rotation: cyl_rot,
            },
            direction,
            cylinder: Cylinder {
                half_height: self.width.mul(Real::ratio(1, 2)),
                radius: self.radius,
            },
            options: ShapeCastOptions {
                max_time_of_impact: raylen.add(offset),
                target_distance: Real::zero(),
                stop_at_penetration: false,
                compute_impact_geometry_on_penetration: true,
            },
        }
    }

    /// Places the wheel on the ground that its cast hit, or lets it hang,
    /// given the cosines of its reject angles and the decay of its droop.
    pub fn apply_cast(
        &mut self,
        hit: Option<(ColliderHandle, ShapeCastHit)>,
        world_up: Vector,
        chassis: &RigidBody,
        suspension_cos: Real,
        surface_cos: Real,
        decay: Real,
    )
        requires
            old(self).accepted(hit, world_up, suspension_cos, surface_cos) is Some
                ==> Real::zero().le(old(self).max_suspension_length()),
        ensures
            *final(self) == old(self).after_cast(
                hit,
                world_up,
                *chassis,
                suspension_cos,
                surface_cos,
                decay,
            ),
    {
        let (axle, direction) = self.cast_axes();
        let offset = self.radius;
        let hit = if self.accepts(hit, world_up, suspension_cos, surface_cos) {
            hit
        } else {
            None
        };
        self.shape_cast_info.ground_object = None;
        match hit {
            Some((collider_hit, hit)) => {
                let axial = self.wheel_direction_ws.neg();
                let raw = hit.normal1;
                let ground_normal = if Real::ratio(1, 2).lt(raw.dot(axial)) {
                    raw
                } else {
                    axial
                };
                self.shape_cast_info.contact_normal_ws = ground_normal;
                self.shape_cast_info.ground_normal_ws = ground_normal;
                self.shape_cast_info.is_in_contact = true;
                self.shape_cast_info.ground_object = Some(collider_hit);

                let raw_length = hit.time_of_impact.sub(offset);
                self.shape_cast_info.last_toi = hit.time_of_impact;
                self.shape_cast_info.last_cast_offset = offset;
                self.shape_cast_info.last_witness2 = hit.witness2;
                self.shape_cast_info.last_cast_start = self.shape_cast_info.hard_point_ws.sub(
                    direction.scale(offset),
                );
                self.shape_cast_info.last_axle_ws = axle;

                // The spring has mechanical end stops: what lies past the hard
                // point is absorbed rigidly.
                let min_suspension_length = self.min_suspension_length();
                let max_suspension_length = self.max_suspension_length();
                self.shape_cast_info.suspension_length = raw_length.clamp(
                    min_suspension_length,
                    max_suspension_length,
                );
                self.shape_cast_info.bottomed_out = raw_length.lt(Real::zero());
                self.shape_cast_info.bottom_out_overshoot = raw_length.neg().max(Real::zero());
                self.shape_cast_info.contact_point_ws = hit.witness1;

                let denominator = ground_normal.dot(self.wheel_direction_ws);
                let proj_vel = ground_normal.dot(chassis.velocity_at_point(hit.witness1));
                if Real::ratio(1, 10).neg().le(denominator) {
                    self.suspension_relative_velocity = Real::zero();
                    self.clipped_inv_contact_dot_suspension = Real::ratio(10, 1);
                } else {
                    let inv = Real::one().neg().div(denominator);
                    self.suspension_relative_velocity = proj_vel.mul(inv);
                    self.clipped_inv_contact_dot_suspension = inv;
                }
            },
            None => {
                // A free suspension hangs at its full extension, not at rest.
                let droop_length = self.max_suspension_length();
                let factor = Real::one().sub(decay);
                let length = self.shape_cast_info.suspension_length;
                self.shape_cast_info.suspension_length = length.add(
                    droop_length.sub(length).mul(factor),
                );
                self.shape_cast_info.bottomed_out = false;
                self.shape_cast_info.bottom_out_overshoot = Real::zero();
                self.suspension_relative_velocity = Real::zero();
                self.shape_cast_info.contact_normal_ws = self.wheel_direction_ws.neg();
                self.shape_cast_info.ground_normal_ws = self.wheel_direction_ws.neg();
                self.clipped_inv_contact_dot_suspension = Real::one();
            },
        }
    }
}

pub open spec fn spec_droop_exponent(dt: Real) -> Real {
    dt.neg().div(Real::ratio(1, 5))
}

/// The exponent of the decay of a droop over a time step, whose time constant
/// is a fifth of a second.
#[verifier::when_used_as_spec(spec_droop_exponent)]
pub fn droop_exponent(dt: Real) -> (r: Real)
    ensures
        r == spec_droop_exponent(dt),
{
    dt.neg().div(Real::ratio(1, 5))
}

impl DynamicShapeCastVehicleController {
    /// The world's up direction.
    pub open spec fn world_up(self) -> Vector {
        Vector::ith(self.index_up_axis, Real::one())
    }

    /// The hit of a wheel's cast, if the wheel stands on it.
    pub open spec fn accepted_hit(
        wheel: Wheel,
        hit: Option<(ColliderHandle, ShapeCastHit)>,
        world_up: Vector,
    ) -> Option<(ColliderHandle, ShapeCastHit)> {
        wheel.accepted(
            hit,
            world_up,
            Real { bits: crate::transcendental::fixed_cos(wheel.suspension_reject_angle.bits) },
            Real { bits: crate::transcendental::fixed_cos(wheel.surface_reject_angle.bits) },
        )
    }

    /// The wheel after its cast.
    pub open spec fn wheel_after_cast(
        wheel: Wheel,
        hit: Option<(ColliderHandle, ShapeCastHit)>,
        world_up: Vector,
        chassis: RigidBody,
        dt: Real,
    ) -> Wheel {
        wheel.after_cast(
            hit,
            world_up,
            chassis,
            Real { bits: crate::transcendental::fixed_cos(wheel.suspension_reject_angle.bits) },
            Real { bits: crate::transcendental::fixed_cos(wheel.surface_reject_angle.bits) },
            Real { bits: crate::transcendental::fixed_exp(droop_exponent(dt).bits) },
        )
    }

    /// Places a wheel on the ground that its cast hit, or lets it hang. The
    /// full extension of a wheel that stands is not negative, and the decay of
    /// one that hangs is in range.
    pub fn shape_cast(
        &mut self,
        chassis: &RigidBody,
        wheel_id: usize,
        dt: Real,
        hit: Option<(ColliderHandle, ShapeCastHit)>,
    )
        requires
            old(self).index_up_axis < 3,
            wheel_id < old(self).wheels@.len(),
            match Self::accepted_hit(
                old(self).wheels@[wheel_id as int],
                hit,
                old(self).world_up(),
            ) {
                Some(_) => Real::zero().le(
                    old(self).wheels@[wheel_id as int].max_suspension_length(),
                ),
                None => droop_exponent(dt).bits <= MAX_EXPONENT_BITS,
            },
        ensures
            final(self).wheels@ == old(self).wheels@.update(
                wheel_id as int,
                Self::wheel_after_cast(
                    old(self).wheels@[wheel_id as int],
                    hit,
                    old(self).world_up(),
                    *chassis,
                    dt,
                ),
            ),
            final(self).same_but_wheels(*old(self)),
            Real::zero().le(dt) && old(self).wheels@[wheel_id as int].can_travel()
                && old(self).wheels@[wheel_id as int].is_placed()
                ==> final(self).wheels@[wheel_id as int].is_settled(),
    {
        let world_up = Vector::ith(self.index_up_axis, Real::one());
        let mut wheel = self.wheels[wheel_id];
        let suspension_cos = cos(wheel.suspension_reject_angle);
        let surface_cos = cos(wheel.surface_reject_angle);
        let decay = if wheel.accepts(hit, world_up, suspension_cos, surface_cos) {
            Real::zero()
        } else {
            exp(droop_exponent(dt))
        };
        proof {
            if Real::zero().le(dt) && wheel.can_travel() && wheel.is_placed() {
                lemma_droop_exponent(dt);
                lemma_cast_settles(
                    wheel,
                    hit,
                    world_up,
                    *chassis,
                    suspension_cos,
                    surface_cos,
                    decay,
                );
            }
        }
        wheel.apply_cast(hit, world_up, chassis, suspension_cos, surface_cos, decay);
        self.wheels.set(wheel_id, wheel);
    }

    /// Whether a wheel stands on what its cast hit.
    pub(crate) fn stands(
        wheel: &Wheel,
        hit: Option<(ColliderHandle, ShapeCastHit)>,
        world_up: Vector,
    ) -> (r: bool)
        ensures
            r == (Self::accepted_hit(*wheel, hit, world_up) is Some),
    {
        let suspension_cos = cos(wheel.suspension_reject_angle);
        let surface_cos = cos(wheel.surface_reject_angle);
        wheel.accepts(hit, world_up, suspension_cos, surface_cos)
    }
}

proof fn lemma_droop_exponent(dt: Real)
    requires
        Real::zero().le(dt),
    ensures
        droop_exponent(dt).bits <= 0,
{
    let fifth = Real::ratio(1, 5);
    crate::scalar_lemmas::lemma_round_div_exact(1, 5);
    crate::scalar_lemmas::lemma_round_div_ordered(5, ONE_BITS as int, 5);
    assert(fifth.bits > 0);
    let n = dt.neg().bits * ONE_BITS;
    crate::scalar_lemmas::lemma_round_div_exact(0, fifth.bits as int);
    crate::scalar_lemmas::lemma_round_div_ordered(n, 0 * fifth.bits, fifth.bits as int);
}

/// A cast settles a wheel that waits for it.
pub proof fn lemma_cast_settles(
    wheel: Wheel,
    hit: Option<(ColliderHandle, ShapeCastHit)>,
    world_up: Vector,
    chassis: RigidBody,
    suspension_cos: Real,
    surface_cos: Real,
    decay: Real,
)
    requires
        wheel.can_travel(),
        wheel.is_placed(),
        0 <= decay.bits <= ONE_BITS,
    ensures
        wheel.after_cast(
            hit,
            world_up,
            chassis,
            suspension_cos,
            surface_cos,
            decay,
        ).is_settled(),
{
    crate::vehicle::laws::shape_cast::droop_approaches_full_extension(wheel, decay);
}

proof fn lemma_cast_axle_bounded(wheel: Wheel)
    ensures
        crate::transcendental::within_two(wheel.cast_axle()),
{
    if !wheel.wheel_axle_ws.norm().le(min_norm()) {
        lemma_normalized_bounded(wheel.wheel_axle_ws);
    }
}

/// A vector divided by its length is small.
pub proof fn lemma_normalized_bounded(v: Vector)
    requires
        v.norm().bits > 0,
    ensures
        crate::transcendental::within_two(v.unscale(v.norm())),
{
    let sum = v.squared_units();
    assert(v.x.bits * v.x.bits >= 0) by (nonlinear_arith);
    assert(v.y.bits * v.y.bits >= 0) by (nonlinear_arith);
    assert(v.z.bits * v.z.bits >= 0) by (nonlinear_arith);
    lemma_unit_component(v.x, sum, v.norm());
    lemma_unit_component(v.y, sum, v.norm());
    lemma_unit_component(v.z, sum, v.norm());
}

/// A coordinate divided by the length of its vector is small.
proof fn lemma_unit_component(c: Real, sum: nat, n: Real)
    requires
        c.bits * c.bits <= sum,
        n == Real::of(crate::scalar::floor_sqrt(sum) as int),
        n.bits > 0,
    ensures
        -2 * ONE_BITS <= c.div(n).bits <= 2 * ONE_BITS,
{
    let s = crate::scalar::floor_sqrt(sum);
    crate::scalar::lemma_floor_sqrt_exists(sum);
    let m = crate::scalar::magnitude(c.bits as int);
    let b = c.bits as int;
    assert(m <= s) by (nonlinear_arith)
        requires
            m == b || m == -b,
            m >= 0,
            b * b <= sum,
            sum < (s + 1) * (s + 1),
            s >= 0,
    ;
    let d = n.bits as int;
    assert(m <= d + 1);
    let k = ONE_BITS as int;
    assert(0 <= (m * k + d / 2) / d <= 2 * k) by (nonlinear_arith)
        requires
            0 <= m <= d + 1,
            d >= 1,
            k == 0x1_0000_0000,
    ;
}

} // verus!
