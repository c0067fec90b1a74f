//! What the friction of the tires promises.
use crate::bodies::{Collider, RigidBody};
use crate::exact::Exact;
use crate::math::Vector;
use crate::scalar::{Real, ONE_BITS};
use crate::vehicle::controller::DynamicShapeCastVehicleController;
use crate::vehicle::friction::{
    max_static_friction_slip, static_friction_erp, static_friction_max_speed,
};
use crate::vehicle::shape_cast::min_norm;
use crate::vehicle::wheel::Wheel;
use vstd::prelude::*;

verus! {

/// A wheel whose brake does not push holds its contact with an impulse that is
/// not negative.
pub proof fn braked_wheel_holds(wheel: Wheel, vehicle_speed: Real, dt: Real)
    requires
        Real::zero().le(wheel.brake),
    ensures
        Real::zero().le(wheel.holding_impulse(vehicle_speed, dt)),
{
}

/// A wheel that is not driven is pushed by what holds its contact at most.
pub proof fn rolling_friction_is_limited(
    wheel: Wheel,
    forward: Vector,
    chassis: RigidBody,
    ground: Option<RigidBody>,
    num_wheels_on_ground: usize,
    vehicle_speed: Real,
    dt: Real,
)
    requires
        wheel.engine_force == Real::zero(),
        Real::zero().le(wheel.holding_impulse(vehicle_speed, dt)),
    ensures
        wheel.rolling_friction(
            forward,
            chassis,
            ground,
            num_wheels_on_ground,
            vehicle_speed,
            dt,
        ).abs().le(wheel.holding_impulse(vehicle_speed, dt)),
{
}

/// A wheel that is neither driven nor braked coasts when the vehicle is not
/// nearly stopped.
pub proof fn free_wheel_coasts(
    wheel: Wheel,
    forward: Vector,
    chassis: RigidBody,
    ground: Option<RigidBody>,
    num_wheels_on_ground: usize,
    vehicle_speed: Real,
    dt: Real,
)
    requires
        wheel.engine_force == Real::zero(),
        wheel.brake == Real::zero(),
        static_friction_max_speed().le(vehicle_speed),
    ensures
        wheel.rolling_friction(
            forward,
            chassis,
            ground,
            num_wheels_on_ground,
            vehicle_speed,
            dt,
        ) == Real::zero(),
{
}

/// Neither a driven wheel, nor one of a moving vehicle, nor one without ground
/// or on a body that moves, is anchored; and the anchor of any other is within
/// the slip distance of its contact.
pub proof fn anchor_is_where_the_tire_sticks(
    wheel: Wheel,
    ground: Option<RigidBody>,
    vehicle_speed: Real,
)
    ensures
        ({
            let latched = wheel.latched(ground, vehicle_speed);
            &&& latched.static_friction_anchor is Some <==> wheel.can_stick(ground, vehicle_speed)
            &&& latched.static_friction_anchor matches Some(anchor)
                ==> wheel.shape_cast_info.contact_point_ws.sub(anchor).norm().le(
                max_static_friction_slip(),
            )
        }),
{
    crate::vehicle::friction::lemma_no_distance(wheel.shape_cast_info.contact_point_ws);
}

/// A contact that stays within the slip distance of its anchor keeps it.
pub proof fn held_contact_keeps_its_anchor(
    wheel: Wheel,
    ground: Option<RigidBody>,
    vehicle_speed: Real,
)
    requires
        wheel.can_stick(ground, vehicle_speed),
        wheel.static_friction_anchor is Some,
        wheel.shape_cast_info.contact_point_ws.sub(wheel.static_friction_anchor.unwrap()).norm().le(
            max_static_friction_slip(),
        ),
    ensures
        wheel.latched(ground, vehicle_speed).static_friction_anchor == wheel.static_friction_anchor,
{
}

/// A contact that has not drifted is not driven back.
pub proof fn contact_at_its_anchor_does_not_drift(wheel: Wheel, direction: Vector, dt: Real)
    requires
        wheel.static_friction_anchor == Some(wheel.shape_cast_info.contact_point_ws),
    ensures
        wheel.drift_velocity(direction, dt) == Real::zero(),
{
    let p = wheel.shape_cast_info.contact_point_ws;
    assert(p.sub(p) == Vector::zeros());
    crate::scalar_lemmas::lemma_mul_zero(direction.x);
    crate::scalar_lemmas::lemma_mul_zero(direction.y);
    crate::scalar_lemmas::lemma_mul_zero(direction.z);
    crate::scalar_lemmas::lemma_mul_zero(static_friction_erp());
    lemma_zero_div(dt);
}

/// Whether two numbers lie on opposite sides of zero, or one of them on it.
pub open spec fn opposes(a: Real, b: Real) -> bool {
    &&& b.bits >= 0 ==> a.bits <= 0
    &&& b.bits <= 0 ==> a.bits >= 0
}

proof fn lemma_drift_sign(wheel: Wheel, anchor: Vector, direction: Vector, dt: Real)
    requires
        wheel.static_friction_anchor == Some(anchor),
        Real::zero().lt(dt),
    ensures
        ({
            let slid = wheel.shape_cast_info.contact_point_ws.sub(anchor).dot(direction);
            let drift = wheel.drift_velocity(direction, dt);
            &&& slid.bits >= 0 ==> drift.bits >= 0
            &&& slid.bits <= 0 ==> drift.bits <= 0
        }),
{
    let slid = wheel.shape_cast_info.contact_point_ws.sub(anchor).dot(direction);
    assert(static_friction_erp().bits >= 0) by {
        crate::scalar_lemmas::lemma_round_div_exact(0, 5);
        crate::scalar_lemmas::lemma_round_div_ordered(0, ONE_BITS as int, 5);
    }
    crate::scalar_lemmas::lemma_mul_sign(slid, static_friction_erp());
    crate::scalar_lemmas::lemma_div_sign(slid.mul(static_friction_erp()), dt);
}

/// The impulse that would hold the contact of a wheel that is not driven, if it
/// were not limited.
pub open spec fn unlimited_hold(
    wheel: Wheel,
    forward: Vector,
    chassis: RigidBody,
    ground: Option<RigidBody>,
    num_wheels_on_ground: usize,
    dt: Real,
) -> Real {
    let contact = wheel.shape_cast_info.contact_point_ws;
    let ground_response = match ground {
        Some(b) => crate::vehicle::contact::impulse_response(b, contact, forward),
        None => Real::zero(),
    };
    let ground_velocity = match ground {
        Some(b) => b.velocity_at_point(contact),
        None => Vector::zeros(),
    };
    let mass = Real::one().div(
        crate::vehicle::contact::impulse_response(chassis, contact, forward).add(ground_response),
    );
    forward.dot(chassis.velocity_at_point(contact).sub(ground_velocity)).add(
        wheel.drift_velocity(forward, dt),
    ).neg().mul(mass).div(Real::from_count(num_wheels_on_ground))
}

/// A contact that drifted from its anchor while the chassis and the ground are
/// at rest is pushed back towards it, both along the wheel and across it, as
/// long as the contact responds to impulses along their own side; and it is
/// pushed along the wheel unless that impulse rounds to nothing or the wheel
/// holds with nothing.
pub proof fn drifted_contact_is_pushed_back(
    wheel: Wheel,
    anchor: Vector,
    forward: Vector,
    chassis: RigidBody,
    ground: Option<RigidBody>,
    num_wheels_on_ground: usize,
    vehicle_speed: Real,
    dt: Real,
)
    requires
        wheel.static_friction_anchor == Some(anchor),
        wheel.has_ground(),
        wheel.engine_force == Real::zero(),
        !crate::vehicle::friction::is_moving_ground(ground),
        Real::zero().lt(dt),
        Real::zero().le(wheel.side_friction_stiffness),
        Real::zero().le(wheel.grip(dt)),
        Real::zero().le(wheel.holding_impulse(vehicle_speed, dt)),
        Real::zero().le(chassis.inv_mass),
        ({
            let contact = wheel.shape_cast_info.contact_point_ws;
            &&& chassis.velocity_at_point(contact) == Vector::zeros()
            &&& ground matches Some(b) ==> b.velocity_at_point(contact) == Vector::zeros()
            &&& Real::zero().le(
                crate::vehicle::contact::impulse_response(chassis, contact, forward).add(
                    match ground {
                        Some(b) => crate::vehicle::contact::impulse_response(b, contact, forward),
                        None => Real::zero(),
                    },
                ),
            )
        }),
    ensures
        ({
            let slid = wheel.shape_cast_info.contact_point_ws.sub(anchor);
            let loaded = wheel.side_resolved(chassis, ground, num_wheels_on_ground, dt).rolled(
                forward,
                chassis,
                ground,
                num_wheels_on_ground,
                vehicle_speed,
                dt,
            );
            let after = loaded.skidded();
            &&& opposes(loaded.forward_impulse, slid.dot(forward))
            &&& opposes(loaded.side_impulse, slid.dot(wheel.side_direction()))
            &&& opposes(after.forward_impulse, slid.dot(forward))
            &&& opposes(after.side_impulse, slid.dot(wheel.side_direction()))
            &&& loaded.forward_impulse == Real::zero() ==> unlimited_hold(
                wheel,
                forward,
                chassis,
                ground,
                num_wheels_on_ground,
                dt,
            ) == Real::zero() || wheel.holding_impulse(vehicle_speed, dt) == Real::zero()
        }),
{
    let contact = wheel.shape_cast_info.contact_point_ws;
    let slid = contact.sub(anchor);
    let side = wheel.side_direction();
    let count = Real::from_count(num_wheels_on_ground);
    assert(count.bits >= 0) by {
        assert(num_wheels_on_ground * ONE_BITS >= 0) by (nonlinear_arith)
            requires
                ONE_BITS == 0x1_0000_0000,
        ;
    }
    // Across the wheel.
    lemma_drift_sign(wheel, anchor, side, dt);
    let bias = wheel.drift_velocity(side, dt);
    crate::vehicle::laws::contact::unilateral_impulse_opposes_bias(chassis, contact, side, bias);
    let whole = crate::vehicle::contact::unilateral_impulse(chassis, contact, side, bias);
    crate::scalar_lemmas::lemma_mul_sign(whole, wheel.side_friction_stiffness);
    crate::scalar_lemmas::lemma_div_sign(whole.mul(wheel.side_friction_stiffness), count);
    let resolved = wheel.side_resolved(chassis, ground, num_wheels_on_ground, dt);
    assert(resolved.side_impulse == wheel.side_friction(chassis, ground, num_wheels_on_ground, dt));
    // Along the wheel.
    lemma_drift_sign(wheel, anchor, forward, dt);
    crate::vehicle::laws::contact::lemma_no_velocity(forward);
    let drift = wheel.drift_velocity(forward, dt);
    assert(Real::zero().add(drift) == drift);
    let response = crate::vehicle::contact::impulse_response(chassis, contact, forward).add(
        match ground {
            Some(b) => crate::vehicle::contact::impulse_response(b, contact, forward),
            None => Real::zero(),
        },
    );
    let mass = Real::one().div(response);
    crate::scalar_lemmas::lemma_div_sign(Real::one(), response);
    crate::scalar_lemmas::lemma_mul_sign(drift.neg(), mass);
    crate::scalar_lemmas::lemma_div_sign(drift.neg().mul(mass), count);
    let hold = unlimited_hold(wheel, forward, chassis, ground, num_wheels_on_ground, dt);
    assert(hold == drift.neg().mul(mass).div(count));
    let loaded = resolved.rolled(
        forward,
        chassis,
        ground,
        num_wheels_on_ground,
        vehicle_speed,
        dt,
    );
    let limit = wheel.holding_impulse(vehicle_speed, dt);
    assert(resolved.holding_impulse(vehicle_speed, dt) == limit);
    assert(loaded.forward_impulse == hold.clamp(limit.neg(), limit));
    assert(resolved.grip(dt) == wheel.grip(dt));
    share_of_grip_is_not_negative(
        resolved,
        forward,
        chassis,
        ground,
        num_wheels_on_ground,
        vehicle_speed,
        dt,
    );
    skid_only_reduces(loaded);
}

/// Whether the contact of a wheel that holds has drifted from its anchor while
/// the chassis and the ground are at rest there, in a way that friction can
/// undo.
pub open spec fn is_drifted(
    wheel: Wheel,
    anchor: Vector,
    chassis: RigidBody,
    ground: Option<RigidBody>,
    vehicle_speed: Real,
    dt: Real,
) -> bool {
    let contact = wheel.shape_cast_info.contact_point_ws;
    let forward = wheel.forward_direction();
    &&& wheel.can_stick(ground, vehicle_speed)
    &&& wheel.static_friction_anchor == Some(anchor)
    &&& contact.sub(anchor).norm().le(max_static_friction_slip())
    &&& Real::zero().le(wheel.side_friction_stiffness)
    &&& Real::zero().le(wheel.grip(dt))
    &&& Real::zero().le(chassis.inv_mass)
    &&& chassis.velocity_at_point(contact) == Vector::zeros()
    &&& ground matches Some(b) ==> b.velocity_at_point(contact) == Vector::zeros()
    &&& Real::zero().le(
        crate::vehicle::contact::impulse_response(chassis, contact, forward).add(
            match ground {
                Some(b) => crate::vehicle::contact::impulse_response(b, contact, forward),
                None => Real::zero(),
            },
        ),
    )
}

/// What friction makes of one wheel of a vehicle.
pub open spec fn loaded_by_friction(
    wheel: Wheel,
    chassis: RigidBody,
    ground: Option<RigidBody>,
    count: usize,
    vehicle_speed: Real,
    dt: Real,
) -> Wheel {
    let latched = wheel.latched(ground, vehicle_speed);
    latched.side_resolved(chassis, ground, count, dt).rolled(
        wheel.forward_direction(),
        chassis,
        ground,
        count,
        vehicle_speed,
        dt,
    )
}

/// What a wheel on the ground asks its tire for.
pub proof fn lemma_loaded_wheel(
    vehicle: DynamicShapeCastVehicleController,
    bodies: Seq<RigidBody>,
    colliders: Seq<Collider>,
    dt: Real,
    i: int,
)
    requires
        0 <= i < vehicle.wheels@.len(),
        vehicle.wheels@[i].has_ground(),
    ensures
        vehicle.loaded_wheel(bodies, colliders, dt, i) == loaded_by_friction(
            vehicle.wheels@[i],
            vehicle.chassis.of(bodies),
            crate::vehicle::friction::ground_body(
                vehicle.wheels@[i].shape_cast_info.ground_object,
                bodies,
                colliders,
            ),
            crate::vehicle::friction::ground_count(vehicle.wheels@) as usize,
            vehicle.chassis_speed,
            dt,
        ),
{
    let wheel = vehicle.wheels@[i];
    let chassis = vehicle.chassis.of(bodies);
    let speed = vehicle.chassis_speed;
    let count = crate::vehicle::friction::ground_count(vehicle.wheels@) as usize;
    let ground = crate::vehicle::friction::ground_body(
        wheel.shape_cast_info.ground_object,
        bodies,
        colliders,
    );
    let latched = crate::vehicle::friction::latched_wheels(
        vehicle.wheels@,
        bodies,
        colliders,
        speed,
    );
    assert(latched[i] == wheel.latched(ground, speed));
    lemma_latched_directions(wheel, ground, speed);
    let resolved = crate::vehicle::friction::side_resolved_wheels(
        latched,
        chassis,
        bodies,
        colliders,
        count,
        dt,
    );
    assert(resolved[i] == latched[i].side_resolved(chassis, ground, count, dt));
    let forward_ws = crate::vehicle::friction::forward_directions(latched, vehicle.forward_ws@);
    assert(forward_ws[i] == wheel.forward_direction());
    let rolled = crate::vehicle::friction::rolled_wheels(
        resolved,
        forward_ws,
        chassis,
        bodies,
        colliders,
        count,
        speed,
        dt,
    );
    assert(rolled[i] == resolved[i].rolled(forward_ws[i], chassis, ground, count, speed, dt));
    assert(vehicle.loaded_wheels(bodies, colliders, dt) == rolled);
}

proof fn lemma_latched_directions(wheel: Wheel, ground: Option<RigidBody>, vehicle_speed: Real)
    ensures
        ({
            let latched = wheel.latched(ground, vehicle_speed);
            &&& latched.has_ground() == wheel.has_ground()
            &&& latched.forward_direction() == wheel.forward_direction()
            &&& latched.side_direction() == wheel.side_direction()
        }),
{
}

proof fn lemma_skidded_wheel(wheels: Seq<Wheel>, sliding: bool, i: int)
    requires
        0 <= i < wheels.len(),
    ensures
        crate::vehicle::friction::skidded_wheels(wheels, sliding)[i] == if sliding {
            wheels[i].skidded()
        } else {
            wheels[i]
        },
{
}

proof fn lemma_directions_of_wheel(
    vehicle: DynamicShapeCastVehicleController,
    bodies: Seq<RigidBody>,
    colliders: Seq<Collider>,
    i: int,
)
    requires
        0 <= i < vehicle.wheels@.len(),
        vehicle.wheels@[i].has_ground(),
    ensures
        ({
            let latched = crate::vehicle::friction::latched_wheels(
                vehicle.wheels@,
                bodies,
                colliders,
                vehicle.chassis_speed,
            );
            &&& crate::vehicle::friction::forward_directions(latched, vehicle.forward_ws@)[i]
                == vehicle.wheels@[i].forward_direction()
            &&& crate::vehicle::friction::side_directions(latched, vehicle.axle@)[i]
                == vehicle.wheels@[i].side_direction()
        }),
{
    let wheel = vehicle.wheels@[i];
    let ground = crate::vehicle::friction::ground_body(
        wheel.shape_cast_info.ground_object,
        bodies,
        colliders,
    );
    let latched = crate::vehicle::friction::latched_wheels(
        vehicle.wheels@,
        bodies,
        colliders,
        vehicle.chassis_speed,
    );
    assert(latched[i] == wheel.latched(ground, vehicle.chassis_speed));
    lemma_latched_directions(wheel, ground, vehicle.chassis_speed);
}

/// What the tire of a wheel on the ground applies.
#[verifier::spinoff_prover]
pub proof fn lemma_friction_of_wheel(
    vehicle: DynamicShapeCastVehicleController,
    bodies: Seq<RigidBody>,
    colliders: Seq<Collider>,
    dt: Real,
    i: int,
)
    requires
        0 <= i < vehicle.wheels@.len(),
        vehicle.wheels@[i].has_ground(),
    ensures
        ({
            let outcome = vehicle.friction_outcome(bodies, colliders, dt);
            let loaded = vehicle.loaded_wheel(bodies, colliders, dt, i);
            &&& outcome.wheels[i] == if crate::vehicle::friction::some_tire_slides(
                vehicle.loaded_wheels(bodies, colliders, dt),
                dt,
            ) {
                loaded.skidded()
            } else {
                loaded
            }
            &&& outcome.forward_ws[i] == vehicle.wheels@[i].forward_direction()
            &&& outcome.axle[i] == vehicle.wheels@[i].side_direction()
        }),
{
    let loaded = vehicle.loaded_wheels(bodies, colliders, dt);
    lemma_directions_of_wheel(vehicle, bodies, colliders, i);
    lemma_skidded_wheel(loaded, crate::vehicle::friction::some_tire_slides(loaded, dt), i);
}

proof fn lemma_drifted_wheel(
    wheel: Wheel,
    anchor: Vector,
    chassis: RigidBody,
    ground: Option<RigidBody>,
    count: usize,
    vehicle_speed: Real,
    dt: Real,
)
    requires
        Real::zero().lt(dt),
        is_drifted(wheel, anchor, chassis, ground, vehicle_speed, dt),
    ensures
        ({
            let forward = wheel.forward_direction();
            let slid = wheel.shape_cast_info.contact_point_ws.sub(anchor);
            let loaded = loaded_by_friction(wheel, chassis, ground, count, vehicle_speed, dt);
            let after = loaded.skidded();
            &&& opposes(loaded.forward_impulse, slid.dot(forward))
            &&& opposes(loaded.side_impulse, slid.dot(wheel.side_direction()))
            &&& opposes(after.forward_impulse, slid.dot(forward))
            &&& opposes(after.side_impulse, slid.dot(wheel.side_direction()))
            &&& loaded.forward_impulse == Real::zero() ==> unlimited_hold(
                wheel,
                forward,
                chassis,
                ground,
                count,
                dt,
            ) == Real::zero() || wheel.holding_impulse(vehicle_speed, dt) == Real::zero()
        }),
{
    let latched = wheel.latched(ground, vehicle_speed);
    let forward = wheel.forward_direction();
    held_contact_keeps_its_anchor(wheel, ground, vehicle_speed);
    assert(latched.side_direction() == wheel.side_direction());
    assert(latched.holding_impulse(vehicle_speed, dt) == wheel.holding_impulse(vehicle_speed, dt));
    assert(latched.drift_velocity(forward, dt) == wheel.drift_velocity(forward, dt));
    drifted_contact_is_pushed_back(
        latched,
        anchor,
        forward,
        chassis,
        ground,
        count,
        vehicle_speed,
        dt,
    );
}

/// A contact that drifted from its anchor while the chassis and the ground are
/// at rest is pushed back towards it by the friction of the whole vehicle, both
/// along the wheel and across it; and it is pushed along the wheel unless the
/// wheel has nothing to hold with, or the impulse that would hold it, or what
/// the tire grips of it, rounds to nothing.
pub proof fn friction_pushes_drifted_contacts_back(
    vehicle: DynamicShapeCastVehicleController,
    bodies: Seq<RigidBody>,
    colliders: Seq<Collider>,
    dt: Real,
    i: int,
    anchor: Vector,
)
    requires
        0 <= i < vehicle.wheels@.len(),
        Real::zero().lt(dt),
        is_drifted(
            vehicle.wheels@[i],
            anchor,
            vehicle.chassis.of(bodies),
            crate::vehicle::friction::ground_body(
                vehicle.wheels@[i].shape_cast_info.ground_object,
                bodies,
                colliders,
            ),
            vehicle.chassis_speed,
            dt,
        ),
    ensures
        ({
            let wheel = vehicle.wheels@[i];
            let outcome = vehicle.friction_outcome(bodies, colliders, dt);
            let after = outcome.wheels[i];
            let loaded = vehicle.loaded_wheel(bodies, colliders, dt, i);
            let slid = wheel.shape_cast_info.contact_point_ws.sub(anchor);
            let hold = unlimited_hold(
                wheel,
                outcome.forward_ws[i],
                vehicle.chassis.of(bodies),
                crate::vehicle::friction::ground_body(
                    wheel.shape_cast_info.ground_object,
                    bodies,
                    colliders,
                ),
                crate::vehicle::friction::ground_count(vehicle.wheels@) as usize,
                dt,
            );
            &&& outcome.forward_ws[i] == wheel.forward_direction()
            &&& outcome.axle[i] == wheel.side_direction()
            &&& opposes(after.forward_impulse, slid.dot(outcome.forward_ws[i]))
            &&& opposes(after.side_impulse, slid.dot(outcome.axle[i]))
            &&& after.forward_impulse == Real::zero() ==> {
                ||| wheel.holding_impulse(vehicle.chassis_speed, dt) == Real::zero()
                ||| hold == Real::zero()
                ||| loaded.forward_impulse.mul(loaded.skid_info) == Real::zero()
            }
        }),
{
    let wheel = vehicle.wheels@[i];
    lemma_loaded_wheel(vehicle, bodies, colliders, dt, i);
    lemma_friction_of_wheel(vehicle, bodies, colliders, dt, i);
    lemma_drifted_wheel(
        wheel,
        anchor,
        vehicle.chassis.of(bodies),
        crate::vehicle::friction::ground_body(
            wheel.shape_cast_info.ground_object,
            bodies,
            colliders,
        ),
        crate::vehicle::friction::ground_count(vehicle.wheels@) as usize,
        vehicle.chassis_speed,
        dt,
    );
}

proof fn lemma_zero_div(d: Real)
    ensures
        Real::zero().div(d) == Real::zero(),
{
    if d.bits > 0 {
        crate::scalar_lemmas::lemma_round_div_exact(0, d.bits as int);
    } else if d.bits < 0 {
        crate::scalar_lemmas::lemma_round_div_exact(0, -(d.bits as int));
    }
}

/// A tire that skids applies less than its wheel asked for, on the same side.
pub proof fn skid_only_reduces(wheel: Wheel)
    requires
        Real::zero().le(wheel.skid_info),
    ensures
        ({
            let after = wheel.skidded();
            &&& wheel.forward_impulse.bits >= 0 ==> 0 <= after.forward_impulse.bits
                <= wheel.forward_impulse.bits
            &&& wheel.forward_impulse.bits <= 0 ==> wheel.forward_impulse.bits
                <= after.forward_impulse.bits <= 0
            &&& wheel.side_impulse.bits >= 0 ==> 0 <= after.side_impulse.bits
                <= wheel.side_impulse.bits
            &&& wheel.side_impulse.bits <= 0 ==> wheel.side_impulse.bits
                <= after.side_impulse.bits <= 0
        }),
{
    if wheel.skid_info.lt(Real::one()) {
        crate::scalar_lemmas::lemma_mul_contracts(wheel.forward_impulse, wheel.skid_info);
        crate::scalar_lemmas::lemma_mul_contracts(wheel.side_impulse, wheel.skid_info);
    }
}

/// The share of grip of a wheel is not negative when its grip is not.
pub proof fn share_of_grip_is_not_negative(
    wheel: Wheel,
    forward: Vector,
    chassis: RigidBody,
    ground: Option<RigidBody>,
    num_wheels_on_ground: usize,
    vehicle_speed: Real,
    dt: Real,
)
    requires
        Real::zero().le(wheel.grip(dt)),
    ensures
        Real::zero().le(
            wheel.rolled(
                forward,
                chassis,
                ground,
                num_wheels_on_ground,
                vehicle_speed,
                dt,
            ).skid_info,
        ),
{
    let rolling = wheel.rolling_friction(
        forward,
        chassis,
        ground,
        num_wheels_on_ground,
        vehicle_speed,
        dt,
    );
    if wheel.slides(rolling, dt) {
        sliding_tire_lacks_grip(wheel, rolling, dt);
        lemma_share_bounds(wheel.grip(dt), wheel.tire_load(rolling).norm());
    }
}

/// A wheel without ground applies nothing.
pub proof fn airborne_tire_applies_nothing(
    vehicle: DynamicShapeCastVehicleController,
    bodies: Seq<RigidBody>,
    colliders: Seq<Collider>,
    dt: Real,
    i: int,
)
    requires
        0 <= i < vehicle.wheels@.len(),
        !vehicle.wheels@[i].has_ground(),
    ensures
        ({
            let wheel = vehicle.friction_outcome(bodies, colliders, dt).wheels[i];
            &&& wheel.forward_impulse == Real::zero()
            &&& wheel.side_impulse == Real::zero()
            &&& wheel.static_friction_anchor is None
        }),
{
}

/// A tire that slides has no more grip than the length of its load, in either
/// direction, and has a load.
pub proof fn sliding_tire_lacks_grip(wheel: Wheel, rolling_friction: Real, dt: Real)
    requires
        wheel.slides(rolling_friction, dt),
    ensures
        wheel.grip(dt).abs().le(wheel.tire_load(rolling_friction).norm()),
        Real::zero().lt(wheel.tire_load(rolling_friction).norm()),
{
    let g = wheel.grip(dt).bits as int;
    let load = wheel.tire_load(rolling_friction);
    let (x, y) = (load.x.bits as int, load.y.bits as int);
    let m = crate::scalar::magnitude(g);
    assert(0int * 0int == 0) by (nonlinear_arith);
    assert(x * x >= 0) by (nonlinear_arith);
    assert(y * y >= 0) by (nonlinear_arith);
    assert(g * g >= 0) by (nonlinear_arith);
    let n = load.squared_units();
    assert(n == x * x + y * y);
    crate::scalar::lemma_floor_sqrt_exists(n);
    let r = crate::scalar::floor_sqrt(n) as int;
    assert(m <= r && r >= 1) by (nonlinear_arith)
        requires
            m == g || m == -g,
            g * g < n,
            g * g >= 0,
            n < (r + 1) * (r + 1),
            r >= 0,
    ;
}

/// How large a share of grip is.
pub proof fn lemma_share_bounds(grip: Real, length: Real)
    requires
        0 <= grip.bits <= length.bits,
        length.bits > 0,
    ensures
        0 <= grip.div(length).bits <= ONE_BITS,
        2 * (grip.div(length).bits * length.bits) <= 2 * (grip.bits * ONE_BITS) + length.bits,
        2 * (grip.div(length).bits * length.bits) >= 2 * (grip.bits * ONE_BITS) - length.bits,
{
    let (g, r, one) = (grip.bits as int, length.bits as int, ONE_BITS as int);
    let k = crate::scalar::round_div(g * one, r);
    crate::scalar_lemmas::lemma_round_div_near(g * one, r);
    crate::scalar_lemmas::lemma_round_div_exact(0, r);
    crate::scalar_lemmas::lemma_round_div_ordered(0 * r, g * one, r);
    crate::scalar_lemmas::lemma_round_div_exact(one, r);
    assert(g * one <= one * r) by (nonlinear_arith)
        requires
            g <= r,
            one == 0x1_0000_0000,
    ;
    crate::scalar_lemmas::lemma_round_div_ordered(g * one, one * r, r);
    assert(2 * k * r == 2 * (k * r)) by (nonlinear_arith);
}

/// The share of grip of a tire that slides brings its load down to its grip:
/// the share times the length of the load is the grip, up to the rounding of
/// the share by half a unit.
pub proof fn skid_brings_load_to_grip(
    wheel: Wheel,
    forward: Vector,
    chassis: RigidBody,
    ground: Option<RigidBody>,
    num_wheels_on_ground: usize,
    vehicle_speed: Real,
    dt: Real,
)
    requires
        Real::zero().le(wheel.grip(dt)),
        wheel.slides(
            wheel.rolling_friction(
                forward,
                chassis,
                ground,
                num_wheels_on_ground,
                vehicle_speed,
                dt,
            ),
            dt,
        ),
    ensures
        ({
            let rolled = wheel.rolled(
                forward,
                chassis,
                ground,
                num_wheels_on_ground,
                vehicle_speed,
                dt,
            );
            let load = wheel.tire_load(rolled.forward_impulse).norm().bits;
            let grip = wheel.grip(dt).bits;
            &&& rolled.skid_info.le(Real::one())
            &&& 2 * (rolled.skid_info.bits * load) <= 2 * (grip * ONE_BITS) + load
            &&& 2 * (rolled.skid_info.bits * load) >= 2 * (grip * ONE_BITS) - load
        }),
{
    let rolling = wheel.rolling_friction(
        forward,
        chassis,
        ground,
        num_wheels_on_ground,
        vehicle_speed,
        dt,
    );
    sliding_tire_lacks_grip(wheel, rolling, dt);
    lemma_share_bounds(wheel.grip(dt), wheel.tire_load(rolling).norm());
}

/// Whether the impulses of a wheel, half of the forward one being counted, lie
/// within `slack` units of the circle of its grip.
pub open spec fn within_grip(wheel: Wheel, dt: Real, slack: int) -> bool {
    let limit = wheel.grip(dt).bits + slack;
    wheel.forward_impulse.bits * wheel.forward_impulse.bits + 4 * (wheel.side_impulse.bits
        * wheel.side_impulse.bits) <= 4 * (limit * limit)
}

/// A share of a number is at most that share of its magnitude, and half a unit.
proof fn lemma_reduced(a: Real, k: Real)
    requires
        0 <= k.bits <= ONE_BITS,
    ensures
        ({
            let m = crate::scalar::magnitude(a.bits as int);
            let r = crate::scalar::magnitude(a.mul(k).bits as int);
            2 * (r * ONE_BITS) <= 2 * (m * k.bits) + ONE_BITS
        }),
{
    let (x, y, d) = (a.bits as int, k.bits as int, ONE_BITS as int);
    let q = crate::scalar::round_div(x * y, d);
    crate::scalar_lemmas::lemma_mul_contracts(a, k);
    crate::scalar_lemmas::lemma_round_div_near(x * y, d);
    assert(2 * q * d == 2 * (q * d)) by (nonlinear_arith);
    let m = crate::scalar::magnitude(x);
    assert(m == x ==> m * y == x * y);
    assert(m == -x ==> m * y == -(x * y)) by (nonlinear_arith);
    crate::scalar_lemmas::lemma_product_in_range(x, y);
    assert(a.mul(k).bits == q);
}

/// Half of a number, doubled, is within one unit of it.
proof fn lemma_half(f: Real)
    ensures
        ({
            let a = crate::scalar::magnitude(f.mul(Real::ratio(1, 2)).bits as int);
            let m = crate::scalar::magnitude(f.bits as int);
            2 * a - 1 <= m <= 2 * a + 1
        }),
{
    let half = Real::ratio(1, 2);
    assert(half.bits == 0x8000_0000) by {
        crate::scalar_lemmas::lemma_round_div_exact(0x8000_0000, 2);
    }
    let (x, d) = (f.bits as int, ONE_BITS as int);
    let q = crate::scalar::round_div(x * half.bits, d);
    crate::scalar_lemmas::lemma_round_div_near(x * half.bits, d);
    crate::scalar_lemmas::lemma_product_in_range(x, half.bits as int);
    crate::scalar_lemmas::lemma_mul_contracts(f, half);
    assert(2 * q * d == 2 * (q * d)) by (nonlinear_arith);
}

/// Impulses within `n + 1` of a load, reduced by the share that brings `n` to
/// `g`, lie within the circle of `g`.
proof fn lemma_reduced_circle(a: int, b: int, n: int, k: int, g: int, p: int, q: int, e: int)
    requires
        a >= 0,
        b >= 0,
        n >= 1,
        0 <= k <= ONE_BITS,
        0 <= g,
        p >= 0,
        q >= 0,
        a * a + b * b < (n + 1) * (n + 1),
        2 * (k * n) <= 2 * (g * ONE_BITS) + n,
        2 * (p * ONE_BITS) <= 4 * (a * k) + 3 * ONE_BITS,
        2 * (q * ONE_BITS) <= 2 * (b * k) + ONE_BITS,
        e == 3 + n / (ONE_BITS as int),
    ensures
        p * p + 4 * (q * q) <= 4 * ((g + e) * (g + e)),
{
    let d: int = 0x1_0000_0000;
    let m = n + 1;
    let ak = a * k;
    let bk = b * k;
    let km = k * m;
    assert(a * a >= 0) by (nonlinear_arith);
    assert(b * b >= 0) by (nonlinear_arith);
    assert(a <= m && b <= m) by (nonlinear_arith)
        requires
            a >= 0,
            b >= 0,
            m >= 2,
            a * a >= 0,
            b * b >= 0,
            a * a + b * b < m * m,
    ;
    assert(0 <= ak <= km && 0 <= bk <= km) by (nonlinear_arith)
        requires
            ak == a * k,
            bk == b * k,
            km == k * m,
            0 <= a <= m,
            0 <= b <= m,
            k >= 0,
    ;
    assert(ak * ak + bk * bk <= km * km) by (nonlinear_arith)
        requires
            ak == a * k,
            bk == b * k,
            km == k * m,
            a * a + b * b < m * m,
    {
        assert(ak * ak + bk * bk == (k * k) * (a * a + b * b));
        assert(km * km == (k * k) * (m * m));
        assert(k * k >= 0);
    }
    // The lengths, in units of twice a unit of a unit.
    let (u, v, w) = (2 * (p * d), 4 * (q * d), 4 * km + 5 * d);
    assert(u * u <= (4 * ak + 3 * d) * (4 * ak + 3 * d)) by (nonlinear_arith)
        requires
            0 <= u <= 4 * ak + 3 * d,
    ;
    assert(v * v <= (4 * bk + 2 * d) * (4 * bk + 2 * d)) by (nonlinear_arith)
        requires
            0 <= v <= 4 * bk + 2 * d,
    ;
    assert((4 * ak + 3 * d) * (4 * ak + 3 * d) == 16 * (ak * ak) + 24 * (ak * d) + 9 * (d * d))
        by (nonlinear_arith);
    assert((4 * bk + 2 * d) * (4 * bk + 2 * d) == 16 * (bk * bk) + 16 * (bk * d) + 4 * (d * d))
        by (nonlinear_arith);
    assert(w * w == 16 * (km * km) + 40 * (km * d) + 25 * (d * d)) by (nonlinear_arith)
        requires
            w == 4 * km + 5 * d,
    ;
    assert(u * u + v * v <= w * w);
    assert(k * m == k * n + k) by (nonlinear_arith)
        requires
            m == n + 1,
    ;
    let h = 4 * ((g + e) * d);
    assert(h == 4 * (g * d) + 4 * (e * d)) by (nonlinear_arith)
        requires
            h == 4 * ((g + e) * d),
    ;
    assert(0 <= w <= h);
    assert(w * w <= h * h) by (nonlinear_arith)
        requires
            0 <= w <= h,
    ;
    assert(u * u + v * v == 4 * (d * d) * (p * p + 4 * (q * q))) by (nonlinear_arith)
        requires
            u == 2 * (p * d),
            v == 4 * (q * d),
    ;
    assert(h * h == 4 * (d * d) * (4 * ((g + e) * (g + e)))) by (nonlinear_arith)
        requires
            h == 4 * ((g + e) * d),
    ;
    let (x, y) = (p * p + 4 * (q * q), 4 * ((g + e) * (g + e)));
    assert(x <= y) by (nonlinear_arith)
        requires
            4 * (d * d) * x <= 4 * (d * d) * y,
            d == 0x1_0000_0000,
    ;
}

/// A tire that does not slide, or whose impulses were reduced, applies no more
/// than its grip, up to rounding.
proof fn lemma_skidded_within_grip(wheel: Wheel, dt: Real)
    requires
        Real::zero().le(wheel.grip(dt)),
        wheel.has_ground(),
        wheel.side_impulse != Real::zero(),
        wheel.tire_load(wheel.forward_impulse).norm().bits < i64::MAX,
        wheel.skid_info == (if wheel.slides(wheel.forward_impulse, dt) {
            wheel.grip(dt).div(wheel.tire_load(wheel.forward_impulse).norm())
        } else {
            Real::one()
        }),
    ensures
        within_grip(
            wheel.skidded(),
            dt,
            3 + (wheel.tire_load(wheel.forward_impulse).norm().bits as int) / (ONE_BITS as int),
        ),
{
    let load = wheel.tire_load(wheel.forward_impulse);
    let n = load.norm().bits as int;
    let e = 3 + n / (ONE_BITS as int);
    let g = wheel.grip(dt).bits as int;
    let a = crate::scalar::magnitude(load.x.bits as int);
    let b = crate::scalar::magnitude(load.y.bits as int);
    let f = crate::scalar::magnitude(wheel.forward_impulse.bits as int);
    lemma_half(wheel.forward_impulse);
    lemma_magnitude_square(load.x.bits as int);
    lemma_magnitude_square(load.y.bits as int);
    let after = wheel.skidded();
    let p = crate::scalar::magnitude(after.forward_impulse.bits as int);
    let q = crate::scalar::magnitude(after.side_impulse.bits as int);
    lemma_magnitude_square(after.forward_impulse.bits as int);
    lemma_magnitude_square(after.side_impulse.bits as int);
    assert(0int * 0int == 0) by (nonlinear_arith);
    assert(load.squared_units() == a * a + b * b) by {
        assert(a * a >= 0) by (nonlinear_arith);
        assert(b * b >= 0) by (nonlinear_arith);
    }
    crate::scalar::lemma_floor_sqrt_exists(load.squared_units());
    if wheel.slides(wheel.forward_impulse, dt) {
        sliding_tire_lacks_grip(wheel, wheel.forward_impulse, dt);
        lemma_share_bounds(wheel.grip(dt), load.norm());
        let k = wheel.skid_info.bits as int;
        if wheel.skid_info.lt(Real::one()) {
            lemma_reduced(wheel.forward_impulse, wheel.skid_info);
            lemma_reduced(wheel.side_impulse, wheel.skid_info);
            assert(f * k <= 2 * (a * k) + k) by (nonlinear_arith)
                requires
                    f <= 2 * a + 1,
                    k >= 0,
            ;
        } else {
            assert(a * k == a * 0x1_0000_0000 && b * k == b * 0x1_0000_0000) by (nonlinear_arith)
                requires
                    k == 0x1_0000_0000,
            ;
        }
        lemma_reduced_circle(a, b, n, k, g, p, q, e);
    } else {
        assert(p * p + 4 * (q * q) <= 4 * ((g + e) * (g + e))) by (nonlinear_arith)
            requires
                0 <= p <= 2 * a + 1,
                q == b,
                a >= 0,
                b >= 0,
                a * a + b * b <= g * g,
                g >= 0,
                e >= 3,
        {
            assert(p * p <= (2 * a + 1) * (2 * a + 1));
            assert((2 * a + 1) * (2 * a + 1) == 4 * (a * a) + 4 * a + 1);
            assert(a <= g) by {
                assert(b * b >= 0);
            }
            assert((g + e) * (g + e) == g * g + 2 * (g * e) + e * e);
            assert(g * e >= 3 * g);
            assert(e * e >= 9);
        }
    }
}

proof fn lemma_magnitude_square(x: int)
    ensures
        crate::scalar::magnitude(x) * crate::scalar::magnitude(x) == x * x,
        crate::scalar::magnitude(x) >= 0,
{
    assert((-x) * (-x) == x * x) by (nonlinear_arith);
}

/// The friction circle: the impulses of every wheel that pushes sideways, half
/// of the forward one being counted, stay within its grip, up to rounding by
/// three units and one for each unit of length of its load.
pub proof fn friction_stays_within_grip(
    vehicle: DynamicShapeCastVehicleController,
    bodies: Seq<RigidBody>,
    colliders: Seq<Collider>,
    dt: Real,
    i: int,
)
    requires
        0 <= i < vehicle.wheels@.len(),
        Real::zero().le(vehicle.wheels@[i].grip(dt)),
        vehicle.friction_outcome(bodies, colliders, dt).wheels[i].side_impulse != Real::zero(),
        vehicle.loaded_wheel(bodies, colliders, dt, i).tire_load(
            vehicle.loaded_wheel(bodies, colliders, dt, i).forward_impulse,
        ).norm().bits < i64::MAX,
    ensures
        ({
            let loaded = vehicle.loaded_wheel(bodies, colliders, dt, i);
            let length = loaded.tire_load(loaded.forward_impulse).norm().bits as int;
            within_grip(
                vehicle.friction_outcome(bodies, colliders, dt).wheels[i],
                dt,
                3 + length / (ONE_BITS as int),
            )
        }),
{
    let rolled = vehicle.loaded_wheels(bodies, colliders, dt);
    let loaded = rolled[i];
    crate::scalar_lemmas::lemma_mul_zero(Real::one());
    assert(loaded.grip(dt) == vehicle.wheels@[i].grip(dt));
    let outcome = vehicle.friction_outcome(bodies, colliders, dt).wheels;
    if loaded.slides(loaded.forward_impulse, dt) {
        assert(crate::vehicle::friction::some_tire_slides(rolled, dt));
    }
    assert(outcome[i] == loaded.skidded());
    if !loaded.has_ground() {
        assert(loaded.side_impulse == Real::zero());
    }
    if loaded.side_impulse == Real::zero() {
        assert(outcome[i].side_impulse == Real::zero());
    }
    lemma_skidded_within_grip(loaded, dt);
}

/// Without anti-squat the forward impulse is applied at the contact, with its
/// full pitch moment.
pub proof fn no_share_leaves_the_contact(wheel: Wheel, chassis: RigidBody, up: Vector)
    ensures
        wheel.raised_contact(chassis, up, Real::zero()) == wheel.shape_cast_info.contact_point_ws,
{
    let contact = wheel.shape_cast_info.contact_point_ws;
    crate::scalar_lemmas::lemma_mul_zero(up.dot(contact.sub(chassis.center_of_mass())));
    crate::scalar_lemmas::lemma_mul_zero(up.x);
    crate::scalar_lemmas::lemma_mul_zero(up.y);
    crate::scalar_lemmas::lemma_mul_zero(up.z);
}

/// With full anti-squat the forward impulse is applied at the height of the
/// center of mass, when up is an axis of the world and the depth of the
/// contact is in range.
pub proof fn full_share_is_level_with_center_of_mass(
    wheel: Wheel,
    chassis: RigidBody,
    axis: usize,
)
    requires
        axis < 3,
        ({
            let up = Vector::ith(axis, Real::one());
            let contact = wheel.shape_cast_info.contact_point_ws;
            let com = chassis.center_of_mass();
            &&& axis == 0 ==> i64::MIN <= contact.x.bits - com.x.bits <= i64::MAX
            &&& axis == 1 ==> i64::MIN <= contact.y.bits - com.y.bits <= i64::MAX
            &&& axis == 2 ==> i64::MIN <= contact.z.bits - com.z.bits <= i64::MAX
        }),
    ensures
        ({
            let up = Vector::ith(axis, Real::one());
            up.dot(
                wheel.raised_contact(chassis, up, Real::one()).sub(chassis.center_of_mass()),
            ) == Real::zero()
        }),
{
    let up = Vector::ith(axis, Real::one());
    let depth_vector = wheel.shape_cast_info.contact_point_ws.sub(chassis.center_of_mass());
    lemma_dot_axis(axis, depth_vector);
    let depth = up.dot(depth_vector);
    crate::scalar_lemmas::lemma_mul_one(depth);
    crate::scalar_lemmas::lemma_mul_zero(depth);
    let raised = wheel.raised_contact(chassis, up, Real::one());
    lemma_dot_axis(axis, raised.sub(chassis.center_of_mass()));
}

/// The dot product with an axis of the world is a coordinate.
proof fn lemma_dot_axis(axis: usize, v: Vector)
    requires
        axis < 3,
    ensures
        axis == 0 ==> Vector::ith(axis, Real::one()).dot(v) == v.x,
        axis == 1 ==> Vector::ith(axis, Real::one()).dot(v) == v.y,
        axis == 2 ==> Vector::ith(axis, Real::one()).dot(v) == v.z,
{
    crate::scalar_lemmas::lemma_mul_one(v.x);
    crate::scalar_lemmas::lemma_mul_one(v.y);
    crate::scalar_lemmas::lemma_mul_one(v.z);
    crate::scalar_lemmas::lemma_mul_zero(v.x);
    crate::scalar_lemmas::lemma_mul_zero(v.y);
    crate::scalar_lemmas::lemma_mul_zero(v.z);
}

/// With a full share an impulse is applied at the height of the center of mass
/// along any up direction, up to the rounding of that direction and of the
/// products: by six units, and sixteen for each unit of depth.
pub proof fn full_share_is_level_up_to_rounding(wheel: Wheel, chassis: RigidBody, up: Vector)
    requires
        crate::vehicle::laws::contact::is_unit(up),
        wheel.shape_cast_info.contact_point_ws.exact().within(0x4000_0000_0000_0000),
        wheel.shape_cast_info.contact_point_ws.sub(chassis.center_of_mass()).exact().within(
            0x10_0000 * ONE_BITS,
        ),
    ensures
        ({
            let com = chassis.center_of_mass();
            let depth = up.dot(wheel.shape_cast_info.contact_point_ws.sub(com));
            let raised = wheel.raised_contact(chassis, up, Real::one());
            let height = up.exact().dot(raised.sub(com).exact());
            let bound = 16 * crate::scalar::magnitude(depth.bits as int) + 6 * ONE_BITS;
            -bound <= height <= bound
        }),
{
    let contact = wheel.shape_cast_info.contact_point_ws;
    let com = chassis.center_of_mass();
    let lever = contact.sub(com);
    let depth = up.dot(lever);
    let (u, r, k) = (up.exact(), lever.exact(), depth.bits as int);
    crate::scalar_lemmas::lemma_mul_one(depth);
    crate::exact::lemma_dot_near(up, lever, 0x1_0000_0000, 0x10_0000_0000_0000);
    crate::exact::lemma_dot_bound(u, r, 0x1_0000_0000, 0x10_0000_0000_0000);
    let shift = up.scale(depth);
    crate::exact::lemma_scale_near(up, depth, 0x1_0000_0000, 0x40_0000_0000_0000);
    crate::exact::lemma_product_bound(u.x, k, 0x1_0000_0000, 0x40_0000_0000_0000);
    crate::exact::lemma_product_bound(u.y, k, 0x1_0000_0000, 0x40_0000_0000_0000);
    crate::exact::lemma_product_bound(u.z, k, 0x1_0000_0000, 0x40_0000_0000_0000);
    let raised = contact.sub(shift);
    assert(wheel.raised_contact(chassis, up, Real::one()) == raised);
    let t = shift.exact();
    let e = t.times(0x1_0000_0000).minus(u.times(k));
    assert(r == contact.exact().minus(com.exact()));
    assert(raised.exact() == contact.exact().minus(t));
    let rest = raised.sub(com).exact();
    assert(rest == r.minus(t));
    assert(rest.times(0x1_0000_0000).plus(u.times(k)).plus(e) == r.times(0x1_0000_0000));
    crate::exact::lemma_dot_linear(u, rest, rest, 0x1_0000_0000);
    crate::exact::lemma_dot_linear(u, r, r, 0x1_0000_0000);
    crate::exact::lemma_dot_linear(u, rest.times(0x1_0000_0000), u.times(k), 0);
    crate::exact::lemma_dot_linear(u, rest.times(0x1_0000_0000).plus(u.times(k)), e, 0);
    crate::exact::lemma_dot_linear(u, u, u, k);
    crate::exact::lemma_dot_bound(u, e, 0x1_0000_0000, 0x1_0000_0000);
    let unit_error = u.dot(u) - 0x1_0000_0000_0000_0000;
    let b = crate::scalar::magnitude(k);
    crate::exact::lemma_product_bound(unit_error, k, 0x10_0000_0000, b);
    assert(unit_error * k == u.dot(u) * k - k * 0x1_0000_0000_0000_0000) by (nonlinear_arith)
        requires
            unit_error == u.dot(u) - 0x1_0000_0000_0000_0000,
    ;
    let h = u.dot(rest);
    let (ur, ue, uk) = (u.dot(r), u.dot(e), unit_error * k);
    assert(u.dot(u) * k == uk + k * 0x1_0000_0000_0000_0000);
    assert(-0x3_0000_0000 <= k * 0x1_0000_0000 - ur <= 0x3_0000_0000);
    assert(-0x3_0000_0000_0000_0000 <= ue <= 0x3_0000_0000_0000_0000);
    assert(h * 0x1_0000_0000 == ur * 0x1_0000_0000 - k * 0x1_0000_0000_0000_0000 - uk - ue);
    assert(-(16 * b + 6 * 0x1_0000_0000) <= h <= 16 * b + 6 * 0x1_0000_0000);
}

/// The shares of the side friction of the wheels on the ground add up to the
/// side friction of one alone, up to the rounding of each by half a unit.
pub proof fn side_friction_is_shared(
    wheel: Wheel,
    chassis: RigidBody,
    ground: Option<RigidBody>,
    num_wheels_on_ground: usize,
    dt: Real,
)
    requires
        0 < num_wheels_on_ground < 0x8000_0000,
    ensures
        ({
            let n = num_wheels_on_ground as int;
            let alone = wheel.side_friction(chassis, ground, 1, dt).bits as int;
            let share = wheel.side_friction(chassis, ground, num_wheels_on_ground, dt).bits as int;
            2 * alone - n <= 2 * (share * n) <= 2 * alone + n
        }),
{
    let contact = wheel.shape_cast_info.contact_point_ws;
    let impulse = if crate::vehicle::friction::is_moving_ground(ground) {
        crate::vehicle::contact::bilateral_impulse(
            chassis,
            contact,
            ground->0,
            contact,
            wheel.side_direction(),
            Real::zero(),
        )
    } else {
        crate::vehicle::contact::unilateral_impulse(
            chassis,
            contact,
            wheel.side_direction(),
            wheel.drift_velocity(wheel.side_direction(), dt),
        )
    };
    let whole = impulse.mul(wheel.side_friction_stiffness);
    let (w, n, d) = (whole.bits as int, num_wheels_on_ground as int, ONE_BITS as int);
    assert(Real::from_count(1) == Real::one());
    crate::scalar_lemmas::lemma_round_div_exact(w, d);
    assert(wheel.side_friction(chassis, ground, 1, dt) == whole);
    let k = n * d;
    assert(Real::from_count(num_wheels_on_ground).bits == k);
    let share = crate::scalar::round_div(w * d, k);
    crate::scalar_lemmas::lemma_round_div_near(w * d, k);
    crate::scalar_lemmas::lemma_round_div_exact(w, k);
    crate::scalar_lemmas::lemma_round_div_exact(0, k);
    if w >= 0 {
        assert(0 * k <= w * d <= w * k) by (nonlinear_arith)
            requires
                w >= 0,
                0 < d <= k,
        ;
        crate::scalar_lemmas::lemma_round_div_ordered(0 * k, w * d, k);
        crate::scalar_lemmas::lemma_round_div_ordered(w * d, w * k, k);
    } else {
        assert(w * k <= w * d <= 0 * k) by (nonlinear_arith)
            requires
                w < 0,
                0 < d <= k,
        ;
        crate::scalar_lemmas::lemma_round_div_ordered(w * k, w * d, k);
        crate::scalar_lemmas::lemma_round_div_ordered(w * d, 0 * k, k);
    }
    assert(2 * share * k == (2 * (share * n)) * d) by (nonlinear_arith)
        requires
            k == n * d,
    ;
}

/// A quotient times its divisor is the dividend, up to the divisor.
pub proof fn lemma_quotient_near(c: Real, len: Real)
    requires
        len.bits > 0,
        -2 * ONE_BITS <= c.div(len).bits <= 2 * ONE_BITS,
    ensures
        -len.bits <= c.div(len).bits * len.bits - c.bits * ONE_BITS <= len.bits,
{
    let (n, d) = (c.bits * ONE_BITS, len.bits as int);
    let q = crate::scalar::round_div(n, d);
    crate::scalar_lemmas::lemma_round_div_near(n, d);
    assert(c.div(len).bits == q);
    assert(2 * q * d == 2 * (q * d)) by (nonlinear_arith);
}

/// The direction in which a wheel rolls lies on the ground, up to rounding,
/// so that driving and braking neither lift the chassis nor press it down:
/// its part along the ground's normal is nine units where the axle lies on the
/// ground too, and grows as the inverse of the sine between the axle and the
/// normal.
pub proof fn forward_direction_lies_on_the_ground(wheel: Wheel)
    requires
        wheel.shape_cast_info.ground_normal_ws.exact().within(ONE_BITS as int),
    ensures
        ({
            let normal = wheel.shape_cast_info.ground_normal_ws;
            let len = normal.cross(wheel.side_direction()).norm().bits as int;
            let lift = normal.exact().dot(wheel.forward_direction().exact());
            let bound = 6 * (ONE_BITS * ONE_BITS) + 3 * (ONE_BITS * len);
            -bound <= lift * len <= bound
        }),
{
    let normal = wheel.shape_cast_info.ground_normal_ws;
    let side = wheel.side_direction();
    let (n, s) = (normal.exact(), side.exact());
    let along = wheel.wheel_axle_ws.sub(normal.scale(wheel.wheel_axle_ws.dot(normal)));
    lemma_part_of_direction(n, along, 0x1_0000_0000);
    let cross = normal.cross(side);
    let c = cross.exact();
    crate::exact::lemma_cross_near(normal, side, 0x1_0000_0000, 0x2_0000_0000);
    let e = c.times(0x1_0000_0000).minus(n.cross(s));
    assert(c.times(0x1_0000_0000) == n.cross(s).plus(e));
    crate::exact::lemma_dot_linear(n, c, c, 0x1_0000_0000);
    crate::exact::lemma_dot_linear(n, n.cross(s), e, 0);
    crate::exact::lemma_dot_bound(n, e, 0x1_0000_0000, 0x2_0000_0000);
    crate::exact::lemma_cross_perpendicular(n, s);
    lemma_part_of_direction(n, cross, 0x1_0000_0000);
    let l = cross.norm().bits as int;
    if cross.norm().le(min_norm()) {
        assert(0 * l == 0);
    }
}

/// The part of a normalized vector along another one.
proof fn lemma_part_of_direction(n: Exact, v: Vector, p: int)
    requires
        n.within(p),
        p >= 0,
    ensures
        ({
            let direction = match v.try_normalize(min_norm()) {
                Some(u) => u,
                None => Vector::zeros(),
            };
            let l = v.norm().bits as int;
            let part = n.dot(direction.exact());
            &&& l >= 0
            &&& direction.exact().within(0x2_0000_0000)
            &&& v.norm().le(min_norm()) ==> part == 0
            &&& !v.norm().le(min_norm()) ==> -(3 * (p * l)) <= part * l - n.dot(v.exact())
                * 0x1_0000_0000 <= 3 * (p * l)
        }),
{
    assert(min_norm().bits > 0) by {
        crate::scalar_lemmas::lemma_round_div_exact(1, 100_000);
        crate::scalar_lemmas::lemma_round_div_ordered(100_000, ONE_BITS as int, 100_000);
    }
    let len = v.norm();
    let l = len.bits as int;
    crate::scalar::lemma_floor_sqrt_exists(v.squared_units());
    if len.le(min_norm()) {
        crate::exact::lemma_dot_bound(n, Vector::zeros().exact(), p, 0);
        assert(p * 0 == 0);
    } else {
        crate::vehicle::shape_cast::lemma_normalized_bounded(v);
        let f = v.unscale(len).exact();
        lemma_quotient_near(v.x, len);
        lemma_quotient_near(v.y, len);
        lemma_quotient_near(v.z, len);
        let g = f.times(l).minus(v.exact().times(0x1_0000_0000));
        assert(f.times(l) == v.exact().times(0x1_0000_0000).plus(g));
        crate::exact::lemma_dot_linear(n, f, f, l);
        crate::exact::lemma_dot_linear(n, v.exact(), v.exact(), 0x1_0000_0000);
        crate::exact::lemma_dot_linear(n, v.exact().times(0x1_0000_0000), g, 0);
        crate::exact::lemma_dot_bound(n, g, p, l);
    }
}

/// The direction across a wheel lies on the ground, up to rounding, so that
/// side friction neither lifts the chassis nor presses it down: its part along
/// the ground's unit normal is nine units where the axle lies on the ground
/// too, and grows as the inverse of the sine between the axle and the normal.
pub proof fn side_direction_lies_on_the_ground(wheel: Wheel, b: int)
    requires
        crate::vehicle::laws::contact::is_unit(wheel.shape_cast_info.ground_normal_ws),
        0 <= b <= 0x10_0000 * ONE_BITS,
        wheel.wheel_axle_ws.exact().within(b),
    ensures
        ({
            let normal = wheel.shape_cast_info.ground_normal_ws;
            let tilt = wheel.wheel_axle_ws.dot(normal);
            let along = wheel.wheel_axle_ws.sub(normal.scale(tilt));
            let len = along.norm().bits as int;
            let lift = normal.exact().dot(wheel.side_direction().exact());
            let bound = 6 * (ONE_BITS * ONE_BITS) + 16 * (ONE_BITS * crate::scalar::magnitude(
                tilt.bits as int,
            )) + 3 * (ONE_BITS * len);
            -bound <= lift * len <= bound
        }),
{
    let normal = wheel.shape_cast_info.ground_normal_ws;
    let axle = wheel.wheel_axle_ws;
    let (n, a) = (normal.exact(), axle.exact());
    let tilt = axle.dot(normal);
    let d = tilt.bits as int;
    crate::exact::lemma_dot_near(axle, normal, b, 0x1_0000_0000);
    crate::exact::lemma_dot_bound(a, n, b, 0x1_0000_0000);
    let e = d * 0x1_0000_0000 - a.dot(n);
    assert(-(3 * b + 3) <= d <= 3 * b + 3);
    let shadow = normal.scale(tilt);
    crate::exact::lemma_scale_near(normal, tilt, 0x1_0000_0000, 3 * b + 3);
    let f = shadow.exact().times(0x1_0000_0000).minus(n.times(d));
    crate::exact::lemma_product_bound(n.x, d, 0x1_0000_0000, 3 * b + 3);
    crate::exact::lemma_product_bound(n.y, d, 0x1_0000_0000, 3 * b + 3);
    crate::exact::lemma_product_bound(n.z, d, 0x1_0000_0000, 3 * b + 3);
    assert(shadow.exact().within(3 * b + 4));
    let along = axle.sub(shadow);
    assert(along.exact() == a.minus(shadow.exact()));
    // What is left along the normal.
    assert(along.exact().times(0x1_0000_0000) == a.times(0x1_0000_0000).plus(
        n.times(-d).plus(f.times(-1)),
    )) by {
        lemma_opposite(n.x, d);
        lemma_opposite(n.y, d);
        lemma_opposite(n.z, d);
    }
    crate::exact::lemma_dot_linear(n, along.exact(), along.exact(), 0x1_0000_0000);
    crate::exact::lemma_dot_linear(
        n,
        a.times(0x1_0000_0000),
        n.times(-d).plus(f.times(-1)),
        0,
    );
    crate::exact::lemma_dot_linear(n, a, a, 0x1_0000_0000);
    crate::exact::lemma_dot_linear(n, n.times(-d), f.times(-1), 0);
    crate::exact::lemma_dot_linear(n, n, n, -d);
    crate::exact::lemma_dot_linear(n, f, f, -1);
    crate::exact::lemma_dot_linear(a, n, n, 0);
    crate::exact::lemma_dot_bound(n, f, 0x1_0000_0000, 0x1_0000_0000);
    let off = n.dot(n) - 0x1_0000_0000_0000_0000;
    let m = crate::scalar::magnitude(d);
    crate::exact::lemma_product_bound(off, d, 0x10_0000_0000, m);
    assert((0x1_0000_0000_0000_0000 + off) * (-d) == -(d * 0x1_0000_0000_0000_0000) - off * d)
        by (nonlinear_arith);
    let part = n.dot(along.exact());
    assert(part * 0x1_0000_0000 == -(e * 0x1_0000_0000) - off * d - n.dot(f));
    
    assert(-(6 * 0x1_0000_0000 + 16 * m) <= part <= 6 * 0x1_0000_0000 + 16 * m);
    lemma_part_of_direction(n, along, 0x1_0000_0000);
    let l = along.norm().bits as int;
    assert(0x1_0000_0000 * l == ONE_BITS * l);
    if along.norm().le(min_norm()) {
        assert(0 * l == 0);
        assert(0 <= ONE_BITS * l) by (nonlinear_arith)
            requires
                l >= 0,
                ONE_BITS == 0x1_0000_0000,
        ;
    }
    assert(ONE_BITS * m == 0x1_0000_0000 * m);
}

proof fn lemma_opposite(x: int, d: int)
    ensures
        x * (-d) == -(x * d),
{
    assert(x * (-d) == -(x * d)) by (nonlinear_arith);
}

/// The direction in which a wheel rolls and the one across it are
/// perpendicular, up to rounding: their dot product is eighteen units where the
/// axle lies on the ground, and grows as the inverse of the sine between the
/// axle and the normal.
pub proof fn ground_directions_are_perpendicular(wheel: Wheel)
    requires
        wheel.shape_cast_info.ground_normal_ws.exact().within(ONE_BITS as int),
    ensures
        ({
            let normal = wheel.shape_cast_info.ground_normal_ws;
            let len = normal.cross(wheel.side_direction()).norm().bits as int;
            let shared = wheel.side_direction().exact().dot(wheel.forward_direction().exact());
            let bound = 12 * (ONE_BITS * ONE_BITS) + 6 * (ONE_BITS * len);
            -bound <= shared * len <= bound
        }),
{
    let normal = wheel.shape_cast_info.ground_normal_ws;
    let side = wheel.side_direction();
    let (n, s) = (normal.exact(), side.exact());
    let along = wheel.wheel_axle_ws.sub(normal.scale(wheel.wheel_axle_ws.dot(normal)));
    lemma_part_of_direction(n, along, 0x1_0000_0000);
    let cross = normal.cross(side);
    let c = cross.exact();
    crate::exact::lemma_cross_near(normal, side, 0x1_0000_0000, 0x2_0000_0000);
    let e = c.times(0x1_0000_0000).minus(n.cross(s));
    assert(c.times(0x1_0000_0000) == n.cross(s).plus(e));
    crate::exact::lemma_dot_linear(s, c, c, 0x1_0000_0000);
    crate::exact::lemma_dot_linear(s, n.cross(s), e, 0);
    crate::exact::lemma_dot_bound(s, e, 0x2_0000_0000, 0x2_0000_0000);
    crate::exact::lemma_cross_exchanged(s, n);
    crate::exact::lemma_cross_perpendicular(s, n);
    crate::exact::lemma_dot_linear(s, s.cross(n), s.cross(n), -1);
    assert(s.dot(n.cross(s)) == 0);
    lemma_part_of_direction(s, cross, 0x2_0000_0000);
    let l = cross.norm().bits as int;
    if cross.norm().le(min_norm()) {
        assert(0 * l == 0);
    }
}

proof fn lemma_wheel_friction(
    wheel: Wheel,
    forward: Vector,
    chassis: RigidBody,
    ground: Option<RigidBody>,
    count: usize,
    speed: Real,
    dt: Real,
)
    ensures
        crate::vehicle::friction::same_but_friction(
            wheel.rolled(forward, chassis, ground, count, speed, dt),
            wheel,
        ),
        crate::vehicle::friction::same_but_friction(
            wheel.side_resolved(chassis, ground, count, dt),
            wheel,
        ),
        crate::vehicle::friction::same_but_friction(wheel.latched(ground, speed), wheel),
        crate::vehicle::friction::same_but_friction(wheel.skidded(), wheel),
{
}

/// Friction changes nothing of the wheels but their anchors, their impulses and
/// their shares of grip, and gives each its directions.
#[verifier::spinoff_prover]
pub proof fn friction_changes_impulses_only(
    vehicle: DynamicShapeCastVehicleController,
    bodies: Seq<RigidBody>,
    colliders: Seq<Collider>,
    dt: Real,
)
    ensures
        ({
            let outcome = vehicle.friction_outcome(bodies, colliders, dt);
            &&& outcome.wheels.len() == vehicle.wheels@.len()
            &&& forall|i: int|
                0 <= i < outcome.wheels.len() ==> crate::vehicle::friction::same_but_friction(
                    #[trigger] outcome.wheels[i],
                    vehicle.wheels@[i],
                )
            &&& vehicle.wheels@.len() > 0 ==> outcome.forward_ws.len() == outcome.wheels.len()
                && outcome.axle.len() == outcome.wheels.len()
        }),
{
    if vehicle.wheels@.len() > 0 {
        let chassis = vehicle.chassis.of(bodies);
        let speed = vehicle.chassis_speed;
        let count = crate::vehicle::friction::ground_count(vehicle.wheels@) as usize;
        let latched = crate::vehicle::friction::latched_wheels(
            vehicle.wheels@,
            bodies,
            colliders,
            speed,
        );
        let forward_ws = crate::vehicle::friction::forward_directions(
            latched,
            vehicle.forward_ws@,
        );
        let resolved = crate::vehicle::friction::side_resolved_wheels(
            latched,
            chassis,
            bodies,
            colliders,
            count,
            dt,
        );
        let loaded = vehicle.loaded_wheels(bodies, colliders, dt);
        let outcome = vehicle.friction_outcome(bodies, colliders, dt);
        assert forall|i: int|
            0 <= i < outcome.wheels.len() implies crate::vehicle::friction::same_but_friction(
            #[trigger] outcome.wheels[i],
            vehicle.wheels@[i],
        ) by {
            let wheel = vehicle.wheels@[i];
            let ground = crate::vehicle::friction::ground_body(
                wheel.shape_cast_info.ground_object,
                bodies,
                colliders,
            );
            let forward = forward_ws[i];
            lemma_wheel_friction(wheel, forward, chassis, ground, count, speed, dt);
            assert(latched[i] == wheel.latched(ground, speed));
            lemma_wheel_friction(latched[i], forward, chassis, ground, count, speed, dt);
            assert(resolved[i] == latched[i].side_resolved(chassis, ground, count, dt));
            lemma_wheel_friction(resolved[i], forward, chassis, ground, count, speed, dt);
            assert(loaded[i] == resolved[i].rolled(forward, chassis, ground, count, speed, dt));
            lemma_wheel_friction(loaded[i], forward, chassis, ground, count, speed, dt);
            assert(outcome.wheels[i] == loaded[i] || outcome.wheels[i] == loaded[i].skidded());
        }
    }
}

/// Friction changes nothing of the chassis but its velocities.
pub proof fn friction_changes_velocities_only(
    vehicle: DynamicShapeCastVehicleController,
    bodies: Seq<RigidBody>,
    colliders: Seq<Collider>,
    dt: Real,
)
    ensures
        vehicle.friction_outcome(bodies, colliders, dt).chassis.same_but_velocities(
            vehicle.chassis.of(bodies),
        ),
{
    if vehicle.wheels@.len() > 0 {
        let chassis = vehicle.chassis.of(bodies);
        let outcome = vehicle.friction_outcome(bodies, colliders, dt);
        lemma_pushed_chassis(
            chassis,
            chassis.position.rotation.rotate(Vector::ith(vehicle.index_up_axis, Real::one())),
            outcome.wheels,
            outcome.forward_ws,
            outcome.axle,
            outcome.wheels.len(),
        );
    }
}

proof fn lemma_pushed_chassis(
    chassis: RigidBody,
    up: Vector,
    wheels: Seq<Wheel>,
    forward_ws: Seq<Vector>,
    axle: Seq<Vector>,
    n: nat,
)
    ensures
        crate::vehicle::friction::pushed_chassis(
            chassis,
            up,
            wheels,
            forward_ws,
            axle,
            n,
        ).same_but_velocities(chassis),
    decreases n,
{
    if n > 0 {
        lemma_pushed_chassis(chassis, up, wheels, forward_ws, axle, (n - 1) as nat);
    }
}

} // verus!
