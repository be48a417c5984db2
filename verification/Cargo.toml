[package]
name = "ble_thermometers"
version = "0.1.0"
edition = "2021"
publish = false

[dependencies]
btleplug = "0.11"
futures = "0.3"
tokio = { version = "1", features = ["rt-multi-thread", "macros"] }
uuid = "1"
