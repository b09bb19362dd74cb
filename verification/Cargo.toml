[package]
name = "poc_kokkos_rs"
version = "0.1.0"
edition = "2021"
publish = false

[dependencies]
rayon = "1"
num_cpus = "1"
rand = { version = "0.8", features = ["small_rng"] }
atomic = "*"
