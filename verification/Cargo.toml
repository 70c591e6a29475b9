[package]
name = "sump_ila"
version = "0.1.0"
edition = "2021"
publish = false

[dependencies]
axum = "*"
libc = "*"
parking_lot = "*"
serde = { version = "*", features = ["derive"] }
tokio = { version = "*", features = ["macros", "net", "rt", "signal", "time"] }
