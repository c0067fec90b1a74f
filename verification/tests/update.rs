use shape_cast_vehicle::bodies::{
    Collider, ColliderHandle, ColliderSet, RigidBody, RigidBodyHandle, RigidBodySet,
};
use shape_cast_vehicle::math::{Isometry, Rotation, SdpMatrix3, Vector};
use shape_cast_vehicle::scalar::{Real, ONE_BITS};
use shape_cast_vehicle::vehicle::controller::DynamicShapeCastVehicleController;
use shape_cast_vehicle::vehicle::shape_cast::ShapeCastHit;
use shape_cast_vehicle::vehicle::update::{
    lift_chassis, QueryPipelineMut, UpdateAction, UpdateEvent,
};
use shape_cast_vehicle::vehicle::wheel::{Wheel, WheelTuning};

fn r(n: i64) -> Real {
    Real::ratio(n, 1)
}

fn q(n: i64, d: i64) -> Real {
    Real::ratio(n, d)
}

fn v(x: i64, y: i64, z: i64) -> Vector {
    Vector::new(r(x), r(y), r(z))
}

fn f(a: Real) -> f64 {
    a.bits as f64 / ONE_BITS as f64
}

fn close(a: Real, b: f64) -> bool {
    (f(a) - b).abs() < 1.0e-5
}

fn body(linvel: Vector) -> RigidBody {
    let half = q(1, 2);
    RigidBody {
        dynamic: true,
        sleeping: true,
        position: Isometry { translation: Vector::zeros(), rotation: Rotation::identity() },
        linvel,
        angvel: Vector::zeros(),
        mass: r(2),
        inv_mass: half,
        effective_inv_mass: Vector::new(half, half, half),
        effective_world_inv_inertia: SdpMatrix3 {
            m11: r(1),
            m12: r(0),
            m13: r(0),
            m22: r(1),
            m23: r(0),
            m33: r(1),
        },
        local_com: Vector::zeros(),
    }
}

fn world(linvel: Vector) -> QueryPipelineMut {
    QueryPipelineMut {
        bodies: RigidBodySet { bodies: vec![body(v(7, 7, 7)), body(linvel)] },
        colliders: ColliderSet { colliders: vec![Collider { parent: None }] },
    }
}

fn vehicle() -> DynamicShapeCastVehicleController {
    let mut c = DynamicShapeCastVehicleController::new(RigidBodyHandle { index: 1 });
    c.add_wheel(
        v(0, 0, 0),
        v(0, -1, 0),
        v(0, 0, 1),
        r(1),
        q(1, 2),
        q(1, 4),
        &WheelTuning::default(),
    );
    c
}

/// Ground under the center of mass.
fn hit(toi: Real) -> Option<(ColliderHandle, ShapeCastHit)> {
    Some((
        ColliderHandle { index: 0 },
        ShapeCastHit {
            time_of_impact: toi,
            witness1: v(0, -1, 0),
            witness2: v(0, -1, 0),
            normal1: v(0, 1, 0),
        },
    ))
}

fn dt() -> Real {
    q(1, 4)
}

/// Drives a whole step of a vehicle with one wheel at most: casts give `hit`,
/// and systems of one equation are solved. Counts the systems.
fn step(
    c: &mut DynamicShapeCastVehicleController,
    world: &mut QueryPipelineMut,
    hit: Option<(ColliderHandle, ShapeCastHit)>,
) -> usize {
    let mut event = UpdateEvent::Begin;
    let mut solved = 0;
    loop {
        event = match c.update_vehicle(dt(), world, event) {
            UpdateAction::CastShapes(requests) => {
                UpdateEvent::ShapesCast(requests.iter().map(|_| hit).collect())
            }
            UpdateAction::Solve(wheels, system) => {
                solved += 1;
                let solution = vec![system.b[0].div(system.a[0][0])];
                UpdateEvent::Solved(wheels, Some(solution))
            }
            UpdateAction::Finish => UpdateEvent::Finish,
            UpdateAction::Done => return solved,
        };
    }
}

#[test]
fn vehicle_without_wheels_only_measures_its_speed() {
    let mut c = DynamicShapeCastVehicleController::new(RigidBodyHandle { index: 1 });
    let mut w = world(v(-3, 0, 4));
    assert_eq!(step(&mut c, &mut w, None), 0);
    assert_eq!(c.current_vehicle_speed, r(-3));
    assert_eq!(w.bodies.bodies, world(v(-3, 0, 4)).bodies.bodies);
}

#[test]
fn forward_speed_is_along_the_forward_axis() {
    for (linvel, axis, forward, speed) in [
        (v(3, 0, 4), 0, 3, 5),
        (v(-3, 0, 4), 0, -3, 5),
        (v(-3, 0, 4), 2, 4, 5),
        (v(0, 0, 3), 0, 0, 3),
        (v(0, 0, 0), 0, 0, 0),
    ] {
        let mut c = vehicle();
        c.index_forward_axis = axis;
        c.begin_update(&body(linvel));
        assert_eq!(c.current_vehicle_speed, r(forward));
        assert_eq!(c.chassis_speed, r(speed));
    }
}

#[test]
fn beginning_asks_for_a_cast_per_wheel() {
    let mut c = vehicle();
    let mut w = world(v(0, 0, 0));
    w.bodies.bodies[1].position.translation = v(10, 20, 30);
    match c.update_vehicle(dt(), &mut w, UpdateEvent::Begin) {
        UpdateAction::CastShapes(requests) => {
            assert_eq!(requests.len(), 1);
            assert_eq!(requests[0], c.wheels()[0].shape_cast_request());
            assert_eq!(
                requests[0].position.translation,
                Vector::new(r(10), q(41, 2), r(30))
            );
        }
        _ => panic!("no cast was asked for"),
    }
}

#[test]
fn spring_lifts_the_chassis() {
    let mut c = vehicle();
    let mut w = world(v(0, 0, 0));
    assert_eq!(step(&mut c, &mut w, hit(q(5, 4))), 0);
    // 5.88 / 4 * 2, over a fourth of a second and a mass of two.
    assert!(close(c.wheels()[0].wheel_suspension_force, 2.94));
    assert!(close(w.bodies.bodies[1].linvel.y, 2.94 / 4.0 / 2.0));
    assert_eq!(w.bodies.bodies[1].position, body(v(0, 0, 0)).position);
    assert!(w.bodies.bodies[1].sleeping);
    // No other body is pushed.
    assert_eq!(w.bodies.bodies[0], body(v(7, 7, 7)));
}

#[test]
fn suspension_force_is_capped() {
    let mut c = vehicle();
    c.wheels_mut()[0].max_suspension_force = q(1, 2);
    let mut w = world(v(0, 0, 0));
    step(&mut c, &mut w, hit(q(5, 4)));
    assert!(close(w.bodies.bodies[1].linvel.y, 0.5 / 4.0 / 2.0));
}

#[test]
fn airborne_vehicle_falls_freely() {
    let mut c = vehicle();
    let mut w = world(v(0, -3, 0));
    assert_eq!(step(&mut c, &mut w, None), 0);
    assert_eq!(w.bodies.bodies, world(v(0, -3, 0)).bodies.bodies);
    assert_eq!(c.wheels()[0].wheel_suspension_force, r(0));
    // A fourth of a second is one and a quarter of a time constant.
    let drooped = 6.0 * (1.0 - (-1.25f64).exp());
    assert!(close(c.wheels()[0].shape_cast_info().suspension_length, drooped));
}

#[test]
fn forward_engine_wakes_the_chassis() {
    for (engine_force, sleeping) in [(r(1), false), (r(0), true), (r(-1), true)] {
        let mut c = vehicle();
        c.wheels_mut()[0].engine_force = engine_force;
        let mut w = world(v(0, 0, 0));
        step(&mut c, &mut w, None);
        assert_eq!(w.bodies.bodies[1].sleeping, sleeping);
    }
}

#[test]
fn bottomed_vehicle_stops_and_is_lifted() {
    let mut c = vehicle();
    let mut w = world(v(0, -10, 0));
    assert_eq!(step(&mut c, &mut w, hit(q(1, 4))), 1);
    assert!(close(w.bodies.bodies[1].linvel.y, 0.0));
    assert_eq!(
        w.bodies.bodies[1].position.translation,
        Vector::new(r(0), q(1, 4), r(0))
    );
    assert!(!w.bodies.bodies[1].sleeping);
    assert!(c.wheels()[0].shape_cast_info().bottomed_out);
}

#[test]
fn bottomed_vehicle_moving_out_needs_no_solution() {
    let mut c = vehicle();
    let mut w = world(v(0, 10, 0));
    assert_eq!(step(&mut c, &mut w, hit(q(1, 4))), 0);
    assert_eq!(w.bodies.bodies[1].position.translation.y, q(1, 4));
}

#[test]
fn dropped_wheel_leaves_a_smaller_system() {
    let mut c = vehicle();
    for _ in 0..2 {
        let w = c.wheels()[0];
        c.wheels.push(w);
    }
    let mut w = world(v(0, -10, 0));
    c.update_vehicle(dt(), &mut w, UpdateEvent::Begin);
    let hits = vec![hit(q(1, 4)), None, hit(q(1, 4))];
    let wheels = match c.update_vehicle(dt(), &mut w, UpdateEvent::ShapesCast(hits)) {
        UpdateAction::Solve(wheels, system) => {
            assert_eq!(wheels.len(), 2);
            assert_eq!(system.a.len(), 2);
            assert_eq!(system.b, vec![wheels[0].rel_vel.neg(), wheels[1].rel_vel.neg()]);
            wheels
        }
        _ => panic!("two wheels are bottomed"),
    };
    let event = UpdateEvent::Solved(wheels, Some(vec![r(1), r(-1)]));
    let wheels = match c.update_vehicle(dt(), &mut w, event) {
        UpdateAction::Solve(wheels, system) => {
            assert_eq!(wheels.len(), 1);
            assert_eq!(system.a, vec![vec![q(1, 2)]]);
            wheels
        }
        _ => panic!("one wheel is left"),
    };
    let event = UpdateEvent::Solved(wheels, None);
    assert!(matches!(c.update_vehicle(dt(), &mut w, event), UpdateAction::Finish));
    assert!(close(w.bodies.bodies[1].linvel.y, 0.0));
}

fn bottomed(overshoot: Real, travel: Real, normal: Vector) -> Wheel {
    let mut w = vehicle().wheels()[0];
    w.shape_cast_info.bottomed_out = true;
    w.shape_cast_info.bottom_out_overshoot = overshoot;
    w.shape_cast_info.contact_normal_ws = normal;
    w.max_suspension_travel = travel;
    w
}

#[test]
fn deepest_overshoot_is_corrected() {
    let mut free = bottomed(r(9), r(9), v(0, 0, 1));
    free.shape_cast_info.bottomed_out = false;
    let wheels = vec![
        bottomed(q(1, 2), r(5), v(0, 1, 0)),
        free,
        bottomed(r(1), r(5), v(1, 0, 0)),
        bottomed(r(1), r(5), v(0, 0, 1)),
    ];
    let mut chassis = body(v(0, 0, 0));
    lift_chassis(&wheels, &mut chassis);
    // The first of the deepest gives the direction.
    assert_eq!(chassis.position.translation, v(1, 0, 0));
}

#[test]
fn correction_is_capped_by_the_travel_of_the_deepest_wheel() {
    let wheels = vec![
        bottomed(r(4), r(1), v(0, 1, 0)),
        bottomed(r(1), r(2), v(1, 0, 0)),
    ];
    let mut chassis = body(v(0, 0, 0));
    lift_chassis(&wheels, &mut chassis);
    assert_eq!(chassis.position.translation, v(0, 1, 0));
    // A negative travel lifts nothing.
    let wheels = vec![bottomed(r(4), r(-1), v(0, 1, 0))];
    let mut chassis = body(v(0, 0, 0));
    lift_chassis(&wheels, &mut chassis);
    assert_eq!(chassis.position.translation, v(0, 0, 0));
}

#[test]
fn nothing_is_corrected_without_overshoot() {
    let wheels = vec![bottomed(r(0), r(1), v(0, 1, 0))];
    let mut chassis = body(v(0, 0, 0));
    lift_chassis(&wheels, &mut chassis);
    assert_eq!(chassis, body(v(0, 0, 0)));
}

#[test]
fn wheels_roll_on_the_ground_and_spin_down_in_the_air() {
    let mut c = vehicle();
    c.wheels_mut()[0].rotation = r(1);
    let mut w = world(v(4, 0, 0));
    step(&mut c, &mut w, hit(q(3, 2)));
    // Four over a fourth of a second and half a radius.
    assert_eq!(c.wheels()[0].rotation, r(3));
    assert!(close(c.wheels()[0].delta_rotation, 1.98));
    step(&mut c, &mut w, None);
    assert!(close(c.wheels()[0].rotation, 4.98));
    assert!(close(c.wheels()[0].delta_rotation, 1.98 * 0.99));
}

#[test]
fn parked_vehicle_stays_on_its_anchor() {
    let mut c = vehicle();
    let mut w = world(v(0, 0, 0));
    for _ in 0..3 {
        step(&mut c, &mut w, hit(q(3, 2)));
        assert_eq!(c.wheels()[0].static_friction_anchor, Some(v(0, -1, 0)));
    }
    assert_eq!(w.bodies.bodies, world(v(0, 0, 0)).bodies.bodies);
}

#[test]
fn airborne_steps_decay_by_a_hundredth() {
    let mut c = vehicle();
    let mut w = world(v(4, 0, 0));
    step(&mut c, &mut w, hit(q(3, 2)));
    let mut before = f(c.wheels()[0].rotation);
    let mut turn = before;
    for _ in 0..5 {
        step(&mut c, &mut w, None);
        let after = f(c.wheels()[0].rotation);
        assert!((after - before - 0.99 * turn).abs() < 1.0e-6);
        turn = after - before;
        before = after;
    }
}

#[test]
fn wheels_stay_settled() {
    let mut c = vehicle();
    let mut w = world(v(0, -1, 0));
    for toi in [q(5, 4), q(1, 4), r(50), r(0), r(2)] {
        for cast in [hit(toi), None] {
            step(&mut c, &mut w, cast);
            let wheel = c.wheels()[0];
            let info = wheel.shape_cast_info();
            assert_eq!(info.is_in_contact, info.ground_object.is_some());
            assert_eq!(info.is_in_contact, cast.is_some());
            assert_eq!(info.bottomed_out, info.bottom_out_overshoot.bits > 0);
            assert!(info.bottom_out_overshoot.bits >= 0);
            assert!(info.suspension_length.bits >= 0);
            assert!(info.suspension_length.le(wheel.max_suspension_length()));
            assert!(wheel.wheel_suspension_force.bits >= 0);
        }
    }
}

#[test]
fn event_that_cannot_be_taken_changes_nothing() {
    let refused = |change: fn(&mut DynamicShapeCastVehicleController), event: UpdateEvent| {
        let mut c = vehicle();
        change(&mut c);
        let before = c.wheels()[0];
        let mut w = world(v(1, 2, 3));
        let action = c.try_update_vehicle(dt(), &mut w, event);
        if action.is_none() {
            assert_eq!(c.wheels()[0], before);
            assert_eq!(w.bodies.bodies, world(v(1, 2, 3)).bodies.bodies);
        }
        action.is_none()
    };
    assert!(!refused(|_| {}, UpdateEvent::Begin));
    assert!(refused(|c| c.chassis.index = 2, UpdateEvent::Begin));
    assert!(refused(|c| c.index_forward_axis = 3, UpdateEvent::Begin));
    assert!(!refused(|_| {}, UpdateEvent::ShapesCast(vec![None])));
    assert!(refused(|_| {}, UpdateEvent::ShapesCast(vec![])));
    // A negative full extension matters to a wheel that stands only.
    let short = |c: &mut DynamicShapeCastVehicleController| {
        c.wheels[0].suspension_rest_length = r(-9)
    };
    assert!(refused(short, UpdateEvent::ShapesCast(vec![hit(r(1))])));
    assert!(!refused(short, UpdateEvent::ShapesCast(vec![None])));
    let (collider, mut wall) = hit(r(1)).unwrap();
    wall.normal1 = v(1, 0, 0);
    assert!(!refused(short, UpdateEvent::ShapesCast(vec![Some((collider, wall))])));
    assert!(refused(|_| {}, UpdateEvent::Solved(vec![], None)));
    assert!(!refused(|_| {}, UpdateEvent::Finish));
    assert!(refused(|c| c.index_up_axis = 3, UpdateEvent::Finish));
    assert!(refused(
        |c| c.wheels[0].shape_cast_info.ground_object = Some(ColliderHandle { index: 9 }),
        UpdateEvent::Finish
    ));
    assert!(refused(
        |c| {
            c.wheels[0].brake = r(-1);
            c.wheels[0].wheel_suspension_force = r(-1);
            c.wheels[0].shape_cast_info.ground_object = Some(ColliderHandle { index: 0 });
        },
        UpdateEvent::Finish
    ));
}

#[test]
fn long_negative_step_matters_to_a_hanging_wheel() {
    let mut w = world(v(0, 0, 0));
    let back = r(-5);
    let cast = |hit| UpdateEvent::ShapesCast(vec![hit]);
    assert!(!vehicle().can_update(back, &w, &cast(None)));
    assert!(vehicle().can_update(back, &w, &cast(hit(r(1)))));
    assert!(vehicle().try_update_vehicle(back, &mut w, cast(None)).is_none());
}

#[test]
fn steps_hang_the_wheels_on_the_chassis() {
    let mut c = vehicle();
    c.wheels[0].chassis_connection_point_cs = v(1, 2, 3);
    c.wheels[0].direction_cs = Vector::new(q(1, 2), r(-1), q(1, 4));
    c.wheels[0].axle_cs = Vector::new(q(1, 3), q(1, 5), r(1));
    let mut w = world(v(0, 0, 0));
    let turn = Rotation::new(Vector::new(q(1, 3), q(-2, 3), r(1)));
    w.bodies.bodies[1].position = Isometry { translation: v(5, 6, 7), rotation: turn };
    let inclination = c.wheels[0].axle_cs.dot(c.wheels[0].direction_cs);
    let length = c.wheels[0].axle_cs.norm();
    for (steering, cast) in [(q(1, 2), None), (q(-7, 4), hit(q(3, 2))), (r(3), None)] {
        c.wheels[0].steering = steering;
        let before = c.wheels[0];
        let pose = w.bodies.bodies[1].position;
        step(&mut c, &mut w, cast);
        let after = c.wheels()[0];
        let hard_point = after.shape_cast_info().hard_point_ws;
        assert_eq!(hard_point, pose.transform_point(before.chassis_connection_point_cs));
        assert_eq!(after.suspension(), turn.rotate(before.direction_cs));
        assert_eq!(
            after.center(),
            hard_point.add(after.suspension().scale(before.shape_cast_info().suspension_length))
        );
        assert!(close(after.axle().dot(after.suspension()), f(inclination)));
        assert!(close(after.axle().norm(), f(length)));
        assert!(close(after.suspension().norm(), f(before.direction_cs.norm())));
        assert_eq!(w.bodies.bodies[1].position.rotation, turn);
    }
}

#[test]
fn vehicle_keeps_the_wheels_added_to_it() {
    let mut c = DynamicShapeCastVehicleController::new(RigidBodyHandle { index: 1 });
    let mut w = world(v(1, -1, 0));
    for n in 0..4 {
        c.add_wheel(
            v(n, 0, -n),
            v(0, -1, 0),
            v(0, 0, 1),
            r(1 + n),
            q(1 + n, 2),
            q(1, 4),
            &WheelTuning::default(),
        );
        step(&mut c, &mut w, None);
        step(&mut c, &mut w, None);
        assert_eq!(c.wheels().len() as i64, n + 1);
        for (i, wheel) in c.wheels().iter().enumerate() {
            let i = i as i64;
            assert_eq!(wheel.chassis_connection_point_cs, v(i, 0, -i));
            assert_eq!(wheel.suspension_rest_length, r(1 + i));
            assert_eq!(wheel.radius, q(1 + i, 2));
        }
    }
}
