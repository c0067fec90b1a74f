[package]
name = "shape_cast_vehicle"
version = "0.1.0"
edition = "2021"
publish = false

[dependencies]
nalgebra = "=0.34.2"
parry3d = "=0.25.3"
simba = { version = "=0.9.1", features = ["partial_fixed_point_support"] }
