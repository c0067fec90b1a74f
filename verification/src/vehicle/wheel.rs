//! The wheels of a vehicle and what their shape-casts found.
use crate::bodies::ColliderHandle;
use crate::math::{Point, Vector};
use crate::scalar::Real;
use vstd::prelude::*;

verus! {

/// Half a turn in radians, in units.
pub const PI_BITS: i64 = 13_493_037_705;

/// Parameters affecting the physical behavior of a wheel.
#[derive(Clone, Copy, Debug, PartialEq, Eq, Structural)]
pub struct WheelTuning {
    /// The suspension stiffness.
    ///
    /// Increase this value if the suspension appears to not push the vehicle strong enough.
    pub suspension_stiffness: Real,
    /// The suspension's damping when it is being compressed.
    pub suspension_compression: Real,
    /// The suspension's damping when it is being released.
    ///
    /// Increase this value if the suspension appears to overshoot.
    pub suspension_damping: Real,
    /// The maximum distance the suspension can travel before and after its resting length.
    pub max_suspension_travel: Real,
    /// The multiplier of friction between a tire and the collider it's on top of.
    pub side_friction_stiffness: Real,
    /// Parameter controlling how much traction the tire has.
    ///
    /// The larger the value, the more instantaneous braking will happen (with the risk of
    /// causing the vehicle to flip if it's too strong).
    pub friction_slip: Real,
    /// The maximum force applied by the suspension.
    pub max_suspension_force: Real,
}

impl Default for WheelTuning {
    fn default() -> (r: Self)
        ensures
            r == (WheelTuning {
                suspension_stiffness: Real::ratio(588, 100),
                suspension_compression: Real::ratio(83, 100),
                suspension_damping: Real::ratio(88, 100),
                max_suspension_travel: Real::ratio(5, 1),
                side_friction_stiffness: Real::one(),
                friction_slip: Real::ratio(105, 10),
                max_suspension_force: Real::ratio(6000, 1),
            }),
    {
        WheelTuning {
            suspension_stiffness: Real::ratio(588, 100),
            suspension_compression: Real::ratio(83, 100),
            suspension_damping: Real::ratio(88, 100),
            max_suspension_travel: Real::ratio(5, 1),
            side_friction_stiffness: Real::one(),
            friction_slip: Real::ratio(105, 10),
            max_suspension_force: Real::ratio(6000, 1),
        }
    }
}

/// Objects used to initialize a wheel.
#[derive(Clone, Copy, Debug, PartialEq, Eq, Structural)]
pub struct WheelDesc {
    /// The position of the wheel, relative to the chassis.
    pub chassis_connection_cs: Point,
    /// The direction of the wheel's suspension, relative to the chassis.
    ///
    /// The shape-casting will happen following this direction to detect the ground.
    pub direction_cs: Vector,
    /// The wheel's axle axis, relative to the chassis.
    pub axle_cs: Vector,
    /// The rest length of the wheel's suspension spring.
    pub suspension_rest_length: Real,
    /// The maximum distance the suspension can travel before and after its resting length.
    pub max_suspension_travel: Real,
    /// The wheel's radius.
    pub radius: Real,
    /// The wheel's width (cylinder length along the axle).
    pub width: Real,
    /// The suspension stiffness.
    pub suspension_stiffness: Real,
    /// The suspension's damping when it is being compressed.
    pub damping_compression: Real,
    /// The suspension's damping when it is being released.
    pub damping_relaxation: Real,
    /// Parameter controlling how much traction the tire has.
    pub friction_slip: Real,
    /// The maximum force applied by the suspension.
    pub max_suspension_force: Real,
    /// The multiplier of friction between a tire and the collider it's on top of.
    pub side_friction_stiffness: Real,
}

/// Information about suspension and the ground obtained from the shape-casting
/// to simulate a wheel's suspension.
#[derive(Clone, Copy, Debug, PartialEq, Eq, Structural)]
pub struct ShapeCastInfo {
    /// World-space suspension-force normal. It follows the ground normal of the
    /// shape-cast, or the suspension axis when the wheel clips a face too steep
    /// for its spring, and coincides with `ground_normal_ws`.
    pub contact_normal_ws: Vector,
    /// World-space ground-surface normal. The drive and brake directions are
    /// built from it, so that they stay in the contact plane.
    pub ground_normal_ws: Vector,
    /// The (world-space) point hit by the wheel's shape-cast.
    pub contact_point_ws: Point,
    /// The suspension length for the wheel.
    pub suspension_length: Real,
    /// The (world-space) starting point of the shape-cast (the chassis-side suspension anchor).
    pub hard_point_ws: Point,
    /// Is the wheel in contact with the ground?
    pub is_in_contact: bool,
    /// The collider hit by the shape-cast.
    pub ground_object: Option<ColliderHandle>,
    /// True when the shape-cast would have placed the wheel past the hard
    /// point (suspension fully compressed).
    pub bottomed_out: bool,
    /// How far the chassis is penetrating past the hard-point contact along
    /// the suspension direction when `bottomed_out` is true; zero otherwise.
    pub bottom_out_overshoot: Real,
    /// The time of impact returned by the last shape-cast hit.
    pub last_toi: Real,
    /// The starting-position offset, against the suspension, of the last hit's shape-cast.
    pub last_cast_offset: Real,
    /// The witness point of the last hit on the cylinder.
    pub last_witness2: Point,
    /// The cylinder's starting center in the last hit's shape-cast.
    pub last_cast_start: Point,
    /// The world-space axle used for the last hit's shape-cast.
    pub last_axle_ws: Vector,
}

impl ShapeCastInfo {
    /// What is known before any shape-cast.
    pub open spec fn initial() -> ShapeCastInfo {
        ShapeCastInfo {
            contact_normal_ws: Vector::zeros(),
            ground_normal_ws: Vector::zeros(),
            contact_point_ws: Vector::zeros(),
            suspension_length: Real::zero(),
            hard_point_ws: Vector::zeros(),
            is_in_contact: false,
            ground_object: None,
            bottomed_out: false,
            bottom_out_overshoot: Real::zero(),
            last_toi: Real::zero(),
            last_cast_offset: Real::zero(),
            last_witness2: Vector::zeros(),
            last_cast_start: Vector::zeros(),
            last_axle_ws: Vector::zeros(),
        }
    }
}

impl Default for ShapeCastInfo {
    fn default() -> (r: Self)
        ensures
            r == ShapeCastInfo::initial(),
    {
        ShapeCastInfo {
            contact_normal_ws: Vector::zeros(),
            ground_normal_ws: Vector::zeros(),
            contact_point_ws: Vector::zeros(),
            suspension_length: Real::zero(),
            hard_point_ws: Vector::zeros(),
            is_in_contact: false,
            ground_object: None,
            bottomed_out: false,
            bottom_out_overshoot: Real::zero(),
            last_toi: Real::zero(),
            last_cast_offset: Real::zero(),
            last_witness2: Vector::zeros(),
            last_cast_start: Vector::zeros(),
            last_axle_ws: Vector::zeros(),
        }
    }
}

/// A wheel attached to a vehicle.
#[derive(Clone, Copy, Debug, PartialEq, Eq, Structural)]
pub struct Wheel {
    pub shape_cast_info: ShapeCastInfo,
    pub center: Point,
    pub wheel_direction_ws: Vector,
    pub wheel_axle_ws: Vector,
    /// The position of the wheel, relative to the chassis.
    pub chassis_connection_point_cs: Point,
    /// The direction of the wheel's suspension, relative to the chassis.
    ///
    /// The shape-casting will happen following this direction to detect the ground.
    pub direction_cs: Vector,
    /// The wheel's axle axis, relative to the chassis.
    pub axle_cs: Vector,
    /// The rest length of the wheel's suspension spring.
    pub suspension_rest_length: Real,
    /// The maximum distance the suspension can travel before and after its resting length.
    pub max_suspension_travel: Real,
    /// The wheel's radius.
    pub radius: Real,
    /// The wheel's width (cylinder length along the axle).
    pub width: Real,
    /// The suspension stiffness.
    ///
    /// Increase this value if the suspension appears to not push the vehicle strong enough.
    pub suspension_stiffness: Real,
    /// The suspension's damping when it is being compressed.
    pub damping_compression: Real,
    /// The suspension's damping when it is being released.
    ///
    /// Increase this value if the suspension appears to overshoot.
    pub damping_relaxation: Real,
    /// Parameter controlling how much traction the tire has.
    ///
    /// The larger the value, the more instantaneous braking will happen (with the risk of
    /// causing the vehicle to flip if it's too strong).
    pub friction_slip: Real,
    /// The multiplier of friction between a tire and the collider it's on top of.
    pub side_friction_stiffness: Real,
    /// The wheel's current rotation on its axle.
    pub rotation: Real,
    pub delta_rotation: Real,
    pub roll_influence: Real,
    /// Anti-squat factor in `[0, 1]`: vertical fraction from contact point to
    /// chassis center-of-mass at which longitudinal (engine/brake) impulse
    /// is applied. `0` = applied at contact (full pitch moment). `1` = applied
    /// at the height of the center of mass (zero pitch moment).
    pub anti_squat: Real,
    /// Reject a shape-cast hit when the wheel's suspension direction points
    /// more than this angle, in radians, away from world-down: with the
    /// chassis sideways or inverted the cast would find ground the wrong way
    /// round and the spring would push the chassis deeper into terrain.
    pub suspension_reject_angle: Real,
    /// Reject a shape-cast hit when the contact-surface normal points more
    /// than this angle, in radians, away from world-up: the wheel cylinder
    /// would otherwise climb the walls it clips.
    pub surface_reject_angle: Real,
    /// The maximum force applied by the suspension.
    pub max_suspension_force: Real,
    /// The forward impulses applied by the wheel on the chassis.
    pub forward_impulse: Real,
    /// The side impulses applied by the wheel on the chassis.
    pub side_impulse: Real,
    /// The steering angle for this wheel.
    pub steering: Real,
    /// The forward force applied by this wheel on the chassis.
    pub engine_force: Real,
    /// The maximum amount of braking impulse applied to slow down the vehicle.
    pub brake: Real,
    /// World-space point this wheel's contact is stuck to while static
    /// friction holds, or `None` when the wheel is rolling freely.
    ///
    /// Velocity-level friction can only cancel the velocity that exists when
    /// it runs, so a persistent horizontal force makes the vehicle creep. Real
    /// static friction holds a contact *point*: the anchor records where the
    /// contact stuck and the drift away from it is driven back out.
    pub static_friction_anchor: Option<Point>,
    pub clipped_inv_contact_dot_suspension: Real,
    pub suspension_relative_velocity: Real,
    /// The force applied by the suspension.
    pub wheel_suspension_force: Real,
    pub skid_info: Real,
}

impl Wheel {
    /// The default angle, eighty degrees, beyond which a hit is rejected.
    pub open spec fn default_reject_angle() -> Real {
        Real::ratio(80, 1).mul(Real { bits: PI_BITS }).div(Real::ratio(180, 1))
    }

    /// A wheel that has not been updated yet.
    pub open spec fn described(info: WheelDesc) -> Wheel {
        Wheel {
            shape_cast_info: ShapeCastInfo::initial(),
            center: Vector::zeros(),
            wheel_direction_ws: info.direction_cs,
            wheel_axle_ws: info.axle_cs,
            chassis_connection_point_cs: info.chassis_connection_cs,
            direction_cs: info.direction_cs,
            axle_cs: info.axle_cs,
            suspension_rest_length: info.suspension_rest_length,
            max_suspension_travel: info.max_suspension_travel,
            radius: info.radius,
            width: info.width,
            suspension_stiffness: info.suspension_stiffness,
            damping_compression: info.damping_compression,
            damping_relaxation: info.damping_relaxation,
            friction_slip: info.friction_slip,
            side_friction_stiffness: info.side_friction_stiffness,
            rotation: Real::zero(),
            delta_rotation: Real::zero(),
            roll_influence: Real::ratio(1, 10),
            anti_squat: Real::ratio(1, 2),
            suspension_reject_angle: Wheel::default_reject_angle(),
            surface_reject_angle: Wheel::default_reject_angle(),
            max_suspension_force: info.max_suspension_force,
            forward_impulse: Real::zero(),
            side_impulse: Real::zero(),
            steering: Real::zero(),
            engine_force: Real::zero(),
            brake: Real::zero(),
            static_friction_anchor: None,
            clipped_inv_contact_dot_suspension: Real::zero(),
            suspension_relative_velocity: Real::zero(),
            wheel_suspension_force: Real::zero(),
            skid_info: Real::zero(),
        }
    }

    /// Creates a wheel.
    pub fn new(info: WheelDesc) -> (r: Self)
        ensures
            r == Wheel::described(info),
    {
        let reject_angle = Real::ratio(80, 1).mul(Real::from_bits(PI_BITS)).div(
            Real::ratio(180, 1),
        );
        Wheel {
            shape_cast_info: ShapeCastInfo::default(),
            center: Vector::zeros(),
            wheel_direction_ws: info.direction_cs,
            wheel_axle_ws: info.axle_cs,
            chassis_connection_point_cs: info.chassis_connection_cs,
            direction_cs: info.direction_cs,
            axle_cs: info.axle_cs,
            suspension_rest_length: info.suspension_rest_length,
            max_suspension_travel: info.max_suspension_travel,
            radius: info.radius,
            width: info.width,
            suspension_stiffness: info.suspension_stiffness,
            damping_compression: info.damping_compression,
            damping_relaxation: info.damping_relaxation,
            friction_slip: info.friction_slip,
            side_friction_stiffness: info.side_friction_stiffness,
            rotation: Real::zero(),
            delta_rotation: Real::zero(),
            roll_influence: Real::ratio(1, 10),
            anti_squat: Real::ratio(1, 2),
            suspension_reject_angle: reject_angle,
            surface_reject_angle: reject_angle,
            max_suspension_force: info.max_suspension_force,
            forward_impulse: Real::zero(),
            side_impulse: Real::zero(),
            steering: Real::zero(),
            engine_force: Real::zero(),
            brake: Real::zero(),
            static_friction_anchor: None,
            clipped_inv_contact_dot_suspension: Real::zero(),
            suspension_relative_velocity: Real::zero(),
            wheel_suspension_force: Real::zero(),
            skid_info: Real::zero(),
        }
    }

    /// Information about suspension and the ground obtained from the shape-casting
    /// for this wheel.
    pub fn shape_cast_info(&self) -> (r: &ShapeCastInfo)
        ensures
            *r == self.shape_cast_info,
    {
        &self.shape_cast_info
    }

    /// The world-space center of the wheel.
    pub fn center(&self) -> (r: Point)
        ensures
            r == self.center,
    {
        self.center
    }

    /// The world-space direction of the wheel's suspension.
    pub fn suspension(&self) -> (r: Vector)
        ensures
            r == self.wheel_direction_ws,
    {
        self.wheel_direction_ws
    }

    /// The world-space direction of the wheel's axle.
    pub fn axle(&self) -> (r: Vector)
        ensures
            r == self.wheel_axle_ws,
    {
        self.wheel_axle_ws
    }
}

} // verus!
