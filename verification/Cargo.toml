[package]
name = "lockstep_multiplayer_experimenting"
version = "0.1.0"
edition = "2021"
publish = false

[dependencies]
chrono = "0.4"
renet = "0.0.13"
