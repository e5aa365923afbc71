[package]
name = "colosseum"
version = "0.1.0"
edition = "2021"
publish = false

[dependencies]
nalgebra = "0.33"
rapier3d = "0.22"
tokio = { version = "1", features = ["macros", "rt-multi-thread"] }
zenoh = { version = "1", default-features = false, features = ["transport_tcp"] }
zenoh-ext = { version = "1", default-features = false }
