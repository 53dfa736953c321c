[package]
name = "flightmngr"
version = "0.1.0"
edition = "2021"
publish = false

[dependencies]
uuid = "1"
prost = "*"
prost-types = "*"
amqprs = "*"
backon = "*"
serde = { version = "1", features = ["derive"] }
envy = "*"
tokio = { version = "1", features = ["rt-multi-thread", "macros", "time"] }
