[package]
name = "wireguard_vanity_lib"
version = "0.4.0"
edition = "2021"
publish = false

[dependencies]
base64 = "0.13"
clap = "2"
curve25519-dalek = "3"
num_cpus = "1"
rand = "0.7"
rand_core = { version = "0.5", features = ["getrandom"] }
rayon = "1"
x25519-dalek = "1"
