//! What the vehicle controller promises.
pub mod bump_stop;
pub mod contact;
pub mod friction;
pub mod impulses;
pub mod motion;
pub mod placing;
pub mod pushing;
pub mod rounding;
pub mod shape_cast;
pub mod step;
pub mod stopping;
pub mod suspension;
pub mod tires;
pub mod update;
