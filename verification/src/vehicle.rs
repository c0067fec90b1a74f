//! A vehicle controller based on cylinder shape-casting.
//!
//! Each wheel hangs from the chassis by a suspension. A cylinder of the size
//! of the wheel is cast along the suspension to find the ground; the spring,
//! the bump stop and the tire friction then push the chassis.
pub mod bump_stop;
pub mod contact;
pub mod controller;
pub mod friction;
pub mod laws;
pub mod shape_cast;
pub mod suspension;
pub mod update;
pub mod wheel;
