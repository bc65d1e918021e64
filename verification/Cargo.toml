[package]
name = "physics_engine"
version = "0.1.0"
edition = "2021"
publish = false

[dependencies]
raw-cpuid = "11"
rayon = "1"
semver = "1"
