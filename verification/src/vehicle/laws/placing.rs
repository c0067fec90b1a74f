//! What placing the wheels in the world promises.
use crate::bodies::RigidBody;
use crate::math::Rotation;
use crate::scalar::ONE_BITS;
use crate::vehicle::wheel::Wheel;
use vstd::prelude::*;

verus! {

/// Whether no coordinate of a quaternion is larger than one.
pub open spec fn is_in_unit_box(q: Rotation) -> bool {
    &&& q.imaginary().exact().within(ONE_BITS as int)
    &&& -ONE_BITS <= q.w.bits <= ONE_BITS
}

/// By how much a rotation changes the dot products of vectors with coordinates
/// of `b` units at most, in units of the fourth power.
pub open spec fn rotation_slack(q: Rotation, b: int) -> int {
    48 * (b * b) * crate::scalar::magnitude(crate::rotation_laws::unit_error(q)) + (1170 * b + 675)
        * 0x1_0000_0000_0000_0000
}

/// The rotation that steers a wheel.
pub open spec fn steering_rotation(wheel: Wheel, chassis: RigidBody) -> Rotation {
    Rotation::new(
        chassis.position.rotation.rotate(wheel.direction_cs).neg().scale(wheel.steering),
    )
}

/// A suspension is as long in the world as it is relative to the chassis, up to
/// rounding and to what the rotation of the chassis lacks of a unit one; and it
/// depends neither on where the chassis is nor on the steering.
pub proof fn placing_keeps_suspension_length(wheel: Wheel, chassis: RigidBody, b: int)
    requires
        is_in_unit_box(chassis.position.rotation),
        0 <= b <= 0x10_0000 * ONE_BITS,
        wheel.direction_cs.exact().within(b),
    ensures
        ({
            let placed = crate::vehicle::controller::placed_wheel(wheel, chassis);
            let before = wheel.direction_cs.exact();
            let after = placed.wheel_direction_ws.exact();
            let slack = rotation_slack(chassis.position.rotation, b);
            &&& placed.wheel_direction_ws == chassis.position.rotation.rotate(wheel.direction_cs)
            &&& -slack <= (after.dot(after) - before.dot(before)) * 0x1_0000_0000_0000_0000
                <= slack
        }),
{
    crate::rotation_laws::rotation_keeps_dot_products(
        chassis.position.rotation,
        wheel.direction_cs,
        wheel.direction_cs,
        b,
    );
}

/// An axle is as long in the world as it is relative to the chassis, however
/// the wheel is steered, up to rounding and to what the rotation of the chassis
/// and that of the steering lack of unit ones.
pub proof fn placing_keeps_axle_length(wheel: Wheel, chassis: RigidBody, b: int)
    requires
        is_in_unit_box(chassis.position.rotation),
        is_in_unit_box(steering_rotation(wheel, chassis)),
        0 <= b <= 0x10_0000 * ONE_BITS,
        wheel.axle_cs.exact().within(b),
        chassis.position.rotation.rotate(wheel.axle_cs).exact().within(b),
    ensures
        ({
            let placed = crate::vehicle::controller::placed_wheel(wheel, chassis);
            let before = wheel.axle_cs.exact();
            let after = placed.wheel_axle_ws.exact();
            let slack = rotation_slack(chassis.position.rotation, b) + rotation_slack(
                steering_rotation(wheel, chassis),
                b,
            );
            -slack <= (after.dot(after) - before.dot(before)) * 0x1_0000_0000_0000_0000 <= slack
        }),
{
    let hung = chassis.position.rotation.rotate(wheel.axle_cs);
    crate::rotation_laws::rotation_keeps_dot_products(
        chassis.position.rotation,
        wheel.axle_cs,
        wheel.axle_cs,
        b,
    );
    crate::rotation_laws::rotation_keeps_dot_products(
        steering_rotation(wheel, chassis),
        hung,
        hung,
        b,
    );
}

/// The chassis keeps the inclination of an axle to its suspension: before it is
/// steered, their dot product is the one relative to the chassis.
pub proof fn placing_keeps_axle_inclination(wheel: Wheel, chassis: RigidBody, b: int)
    requires
        is_in_unit_box(chassis.position.rotation),
        0 <= b <= 0x10_0000 * ONE_BITS,
        wheel.axle_cs.exact().within(b),
        wheel.direction_cs.exact().within(b),
    ensures
        ({
            let hung = crate::vehicle::controller::hung_wheel(wheel, chassis);
            let before = wheel.axle_cs.exact().dot(wheel.direction_cs.exact());
            let after = hung.wheel_axle_ws.exact().dot(hung.wheel_direction_ws.exact());
            let slack = rotation_slack(chassis.position.rotation, b);
            -slack <= (after - before) * 0x1_0000_0000_0000_0000 <= slack
        }),
{
    crate::rotation_laws::rotation_keeps_dot_products(
        chassis.position.rotation,
        wheel.axle_cs,
        wheel.direction_cs,
        b,
    );
}

/// Steering keeps the part of an axle along the axis that it turns around, up
/// to rounding, whatever the angle.
pub proof fn steering_keeps_axle_along_its_axis(wheel: Wheel, chassis: RigidBody)
    requires
        is_in_unit_box(steering_rotation(wheel, chassis)),
        chassis.position.rotation.rotate(wheel.axle_cs).exact().within(0x10_0000 * ONE_BITS),
    ensures
        ({
            let axis = steering_rotation(wheel, chassis).imaginary().exact();
            let hung = crate::vehicle::controller::hung_wheel(wheel, chassis);
            let placed = crate::vehicle::controller::placed_wheel(wheel, chassis);
            let change = axis.dot(placed.wheel_axle_ws.exact()) - axis.dot(
                hung.wheel_axle_ws.exact(),
            );
            -45 * ONE_BITS <= change <= 45 * ONE_BITS
        }),
{
    crate::rotation_laws::rotation_keeps_part_along_its_axis(
        steering_rotation(wheel, chassis),
        chassis.position.rotation.rotate(wheel.axle_cs),
    );
}

/// Whether the directions of a wheel have coordinates of `b` units at most,
/// relative to the chassis and in the world before it is steered, no quaternion
/// that turns them has one larger than one, and its steering is in range.
pub open spec fn places_in_range(wheel: Wheel, chassis: RigidBody, b: int) -> bool {
    let hung = crate::vehicle::controller::hung_wheel(wheel, chassis);
    &&& is_in_unit_box(chassis.position.rotation)
    &&& is_in_unit_box(steering_rotation(wheel, chassis))
    &&& 0 <= b <= 0x10_0000 * ONE_BITS
    &&& wheel.axle_cs.exact().within(b)
    &&& wheel.direction_cs.exact().within(b)
    &&& hung.wheel_axle_ws.exact().within(b)
    &&& hung.wheel_direction_ws.exact().within(b)
    &&& b * crate::scalar::magnitude(wheel.steering.bits as int) <= crate::exact::product_limit()
}

/// By how much steering changes the dot product of an axle and its suspension,
/// with coordinates of `b` units at most, in units of the fourth power.
pub open spec fn steering_slack(wheel: Wheel, chassis: RigidBody, b: int) -> int {
    let around = crate::vehicle::controller::hung_wheel(wheel, chassis).wheel_direction_ws;
    let factor = crate::rotation_laws::axis_factor(around.neg().scale(wheel.steering));
    36 * (b * (b * (crate::scalar::magnitude(factor.bits as int) + ONE_BITS))) + 45 * b
        * 0x1_0000_0000_0000_0000
}

/// A steered axle keeps the inclination to its suspension that it has relative
/// to the chassis, whatever the steering angle: their dot product is the same,
/// up to rounding and to what the rotation of the chassis lacks of a unit one.
pub proof fn steering_keeps_axle_inclination(wheel: Wheel, chassis: RigidBody, b: int)
    requires
        places_in_range(wheel, chassis, b),
    ensures
        ({
            let placed = crate::vehicle::controller::placed_wheel(wheel, chassis);
            let before = wheel.axle_cs.exact().dot(wheel.direction_cs.exact());
            let after = placed.wheel_axle_ws.exact().dot(placed.wheel_direction_ws.exact());
            let slack = rotation_slack(chassis.position.rotation, b) + steering_slack(
                wheel,
                chassis,
                b,
            );
            -slack <= (after - before) * 0x1_0000_0000_0000_0000 <= slack
        }),
{
    let hung = crate::vehicle::controller::hung_wheel(wheel, chassis);
    let placed = crate::vehicle::controller::placed_wheel(wheel, chassis);
    let around = hung.wheel_direction_ws;
    let turn = steering_rotation(wheel, chassis);
    placing_keeps_axle_inclination(wheel, chassis, b);
    let factor = crate::rotation_laws::axis_factor(around.neg().scale(wheel.steering));
    let size = crate::scalar::magnitude(factor.bits as int) + ONE_BITS;
    crate::rotation_laws::lemma_axis_is_parallel(
        around,
        wheel.steering,
        b,
        crate::scalar::magnitude(wheel.steering.bits as int),
    );
    crate::rotation_laws::rotation_keeps_part_along(
        turn,
        around.exact(),
        hung.wheel_axle_ws,
        b,
        2 * (b * size),
    );
    assert(b * (2 * (b * size)) == 2 * (b * (b * size))) by (nonlinear_arith);
    let (a0, a1, d) = (hung.wheel_axle_ws.exact(), placed.wheel_axle_ws.exact(), around.exact());
    crate::exact::lemma_dot_linear(d, a0, a0, 0);
    crate::exact::lemma_dot_linear(d, a1, a1, 0);
}

} // verus!
