[package]
name = "spk_writer"
version = "0.1.0"
edition = "2021"
publish = false

[dependencies]
ndarray = "=0.17.2"
rust-spice = { version = "=1.0.1", default-features = false, features = ["unlinked"] }
