# shape_cast_vehicle

A vehicle controller whose wheels are cylinders cast against the ground, and
the mass-ratio clamp of a constraint solver, written and proved in Verus.

Numbers are fixed-point (`scalar`): 64-bit counts of units of 2^-32, rounded to
nearest and saturating, so that every operation has an exact contract. A number
under half a unit is zero, and a division by zero gives the end of the range. A
number that is no count of units, such as a fifth, stands for the nearest one.

## Layout

- `src/scalar.rs`, `src/scalar_lemmas.rs`: fixed-point numbers.
- `src/exact.rs`: exact integer vectors, to which rounded ones are compared.
- `src/math.rs`, `src/rotation_laws.rs`: vectors, rotations, isometries,
  symmetric matrices.
- `src/transcendental.rs`: sines, cosines, exponentials and rotations computed
  by `simba` and `nalgebra`.
- `src/bodies.rs`: rigid-bodies, colliders and their sets.
- `src/mass_clamp.rs`: the mass-ratio clamp, and its laws.
- `src/vehicle/`: the controller.
  - `wheel.rs`, `controller.rs`: the data and where the wheels are.
  - `shape_cast.rs`: looking for the ground.
  - `suspension.rs`: springs and dampers.
  - `bump_stop.rs`: stopping the fully compressed suspensions.
  - `contact.rs`, `friction.rs`: tire friction.
  - `update.rs`: one time step.
  - `laws/`: what the controller promises, as proved statements. Where rounding
    keeps a promise from being exact, the statement bounds the difference.
- `app/`: running the controller in a world of `parry3d` shapes.

## A time step

`update_vehicle` is called with what just happened and tells what to do next
(`try_update_vehicle` also tests whether the vehicle can take the event):

| event | action |
|---|---|
| `Begin` | `CastShapes`: cast the cylinder of each wheel |
| `ShapesCast` | `Solve` the system of the bump stop, or `Finish` |
| `Solved` | `Solve` a smaller system, or `Finish` |
| `Finish` | `Done` |
