[package]
name = "rivet"
version = "0.1.0"
edition = "2021"
publish = false

[dependencies]
embedded-hal = "=1.0.0"
embedded-hal-async = "=1.0.0"
embedded-hal-nb = "=1.0.0"
nb = "=1.1.0"
portable-atomic = "=1.15.0"
proc-macro2 = { version = "=1.0.107", default-features = false }
quote = { version = "=1.0.47", default-features = false }
stm32f4 = { version = "=0.16.0", features = ["stm32f401"] }
syn = { version = "=2.0.119", default-features = false, features = ["full", "parsing", "printing"] }
