//! The controller that holds the wheels of a vehicle.
use crate::bodies::{RigidBody, RigidBodyHandle};
use crate::math::{Point, Rotation, Vector};
use crate::scalar::Real;
use crate::vehicle::wheel::{ShapeCastInfo, Wheel, WheelDesc, WheelTuning};
use vstd::prelude::*;

verus! {

/// A character controller to simulate vehicles using cylinder shape-casting for the wheels.
#[derive(Clone, Debug)]
pub struct DynamicShapeCastVehicleController {
    pub wheels: Vec<Wheel>,
    /// The world-space forward direction of each wheel when it last had ground.
    pub forward_ws: Vec<Vector>,
    /// The world-space side direction of each wheel when it last had ground.
    pub axle: Vec<Vector>,
    /// The current forward speed of the vehicle.
    pub current_vehicle_speed: Real,
    /// The length of the chassis' velocity when the step began.
    pub chassis_speed: Real,
    /// Handle of the vehicle's chassis.
    pub chassis: RigidBodyHandle,
    /// The chassis' local _up_ direction (`0 = x, 1 = y, 2 = z`)
    pub index_up_axis: usize,
    /// The chassis' local _forward_ direction (`0 = x, 1 = y, 2 = z`)
    pub index_forward_axis: usize,
}

/// The description of a wheel that a call of `add_wheel` gives.
pub open spec fn tuned_wheel(
    chassis_connection_cs: Point,
    direction_cs: Vector,
    axle_cs: Vector,
    suspension_rest_length: Real,
    radius: Real,
    width: Real,
    tuning: WheelTuning,
) -> WheelDesc {
    WheelDesc {
        chassis_connection_cs,
        direction_cs,
        axle_cs,
        suspension_rest_length,
        radius,
        width,
        suspension_stiffness: tuning.suspension_stiffness,
        damping_compression: tuning.suspension_compression,
        damping_relaxation: tuning.suspension_damping,
        friction_slip: tuning.friction_slip,
        max_suspension_travel: tuning.max_suspension_travel,
        max_suspension_force: tuning.max_suspension_force,
        side_friction_stiffness: tuning.side_friction_stiffness,
    }
}

/// A wheel placed in the world by the pose of its chassis, not yet steered.
pub open spec fn hung_wheel(wheel: Wheel, chassis: RigidBody) -> Wheel {
    Wheel {
        shape_cast_info: ShapeCastInfo {
            is_in_contact: false,
            hard_point_ws: chassis.position.transform_point(wheel.chassis_connection_point_cs),
            ..wheel.shape_cast_info
        },
        wheel_direction_ws: chassis.position.transform_vector(wheel.direction_cs),
        wheel_axle_ws: chassis.position.transform_vector(wheel.axle_cs),
        ..wheel
    }
}

/// A wheel placed in the world by the pose of its chassis and its steering.
pub open spec fn placed_wheel(wheel: Wheel, chassis: RigidBody) -> Wheel {
    let hung = hung_wheel(wheel, chassis);
    Wheel {
        wheel_axle_ws: Rotation::new(hung.wheel_direction_ws.neg().scale(wheel.steering)).rotate(
            hung.wheel_axle_ws,
        ),
        center: hung.shape_cast_info.hard_point_ws.add(
            hung.wheel_direction_ws.scale(wheel.shape_cast_info.suspension_length),
        ),
        ..hung
    }
}

impl DynamicShapeCastVehicleController {
    /// Whether both axes are axes of space.
    pub open spec fn axes_ok(self) -> bool {
        self.index_up_axis < 3 && self.index_forward_axis < 3
    }

    /// Whether the two controllers differ at most by their wheels.
    pub open spec fn same_but_wheels(self, other: Self) -> bool {
        &&& self.forward_ws == other.forward_ws
        &&& self.axle == other.axle
        &&& self.current_vehicle_speed == other.current_vehicle_speed
        &&& self.chassis_speed == other.chassis_speed
        &&& self.chassis == other.chassis
        &&& self.index_up_axis == other.index_up_axis
        &&& self.index_forward_axis == other.index_forward_axis
    }

    /// Creates a new vehicle represented by the given rigid-body.
    ///
    /// Wheels have to be attached afterwards calling [`Self::add_wheel`].
    pub fn new(chassis: RigidBodyHandle) -> (r: Self)
        ensures
            r.wheels@ == Seq::<Wheel>::empty(),
            r.forward_ws@ == Seq::<Vector>::empty(),
            r.axle@ == Seq::<Vector>::empty(),
            r.current_vehicle_speed == Real::zero(),
            r.chassis_speed == Real::zero(),
            r.chassis == chassis,
            r.index_up_axis == 1,
            r.index_forward_axis == 0,
    {
        DynamicShapeCastVehicleController {
            wheels: Vec::new(),
            forward_ws: Vec::new(),
            axle: Vec::new(),
            current_vehicle_speed: Real::zero(),
            chassis_speed: Real::zero(),
            chassis,
            index_up_axis: 1,
            index_forward_axis: 0,
        }
    }

    /// Adds a wheel to this vehicle, and gives it to the caller.
    pub fn add_wheel(
        &mut self,
        chassis_connection_cs: Point,
        direction_cs: Vector,
        axle_cs: Vector,
        suspension_rest_length: Real,
        radius: Real,
        width: Real,
        tuning: &WheelTuning,
    ) -> (r: &mut Wheel)
        ensures
            *r == Wheel::described(
                tuned_wheel(
                    chassis_connection_cs,
                    direction_cs,
                    axle_cs,
                    suspension_rest_length,
                    radius,
                    width,
                    *tuning,
                ),
            ),
            final(self).wheels@ == old(self).wheels@.push(*final(r)),
            final(self).same_but_wheels(*old(self)),
    {
        let ci = WheelDesc {
            chassis_connection_cs,
            direction_cs,
            axle_cs,
            suspension_rest_length,
            radius,
            width,
            suspension_stiffness: tuning.suspension_stiffness,
            damping_compression: tuning.suspension_compression,
            damping_relaxation: tuning.suspension_damping,
            friction_slip: tuning.friction_slip,
            max_suspension_travel: tuning.max_suspension_travel,
            max_suspension_force: tuning.max_suspension_force,
            side_friction_stiffness: tuning.side_friction_stiffness,
        };
        let wheel_id = self.wheels.len();
        self.wheels.push(Wheel::new(ci));
        &mut self.wheels[wheel_id]
    }

    /// Reference to all the wheels attached to this vehicle.
    pub fn wheels(&self) -> (r: &[Wheel])
        ensures
            r@ == self.wheels@,
    {
        self.wheels.as_slice()
    }

    /// Mutable reference to all the wheels attached to this vehicle.
    pub fn wheels_mut(&mut self) -> (r: &mut [Wheel])
        ensures
            r@ == old(self).wheels@,
            final(self).wheels@ == final(r)@,
            final(self).same_but_wheels(*old(self)),
    {
        self.wheels.as_mut_slice()
    }

    /// Moves the wheel with the chassis, steers it, and forgets its contact.
    pub fn update_wheel_transform(&mut self, chassis: &RigidBody, wheel_index: usize)
        requires
            wheel_index < old(self).wheels@.len(),
        ensures
            final(self).wheels@ == old(self).wheels@.update(
                wheel_index as int,
                placed_wheel(old(self).wheels@[wheel_index as int], *chassis),
            ),
            final(self).same_but_wheels(*old(self)),
    {
        self.update_wheel_transforms_ws(chassis, wheel_index);
        let mut wheel = self.wheels[wheel_index];
        let steering_orn = Rotation::new(wheel.wheel_direction_ws.neg().scale(wheel.steering));
        wheel.wheel_axle_ws = steering_orn.rotate(
            chassis.position.transform_vector(wheel.axle_cs),
        );
        wheel.center = wheel.shape_cast_info.hard_point_ws.add(
            wheel.wheel_direction_ws.scale(wheel.shape_cast_info.suspension_length),
        );
        self.wheels.set(wheel_index, wheel);
    }

    /// Moves the wheel with the chassis and forgets its contact.
    pub fn update_wheel_transforms_ws(&mut self, chassis: &RigidBody, wheel_id: usize)
        requires
            wheel_id < old(self).wheels@.len(),
        ensures
            final(self).wheels@ == old(self).wheels@.update(
                wheel_id as int,
                hung_wheel(old(self).wheels@[wheel_id as int], *chassis),
            ),
            final(self).same_but_wheels(*old(self)),
    {
        let mut wheel = self.wheels[wheel_id];
        wheel.shape_cast_info.is_in_contact = false;
        let chassis_transform = chassis.position;
        wheel.shape_cast_info.hard_point_ws = chassis_transform.transform_point(
            wheel.chassis_connection_point_cs,
        );
        wheel.wheel_direction_ws = chassis_transform.transform_vector(wheel.direction_cs);
        wheel.wheel_axle_ws = chassis_transform.transform_vector(wheel.axle_cs);
        self.wheels.set(wheel_id, wheel);
    }
}

} // verus!
