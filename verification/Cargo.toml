[package]
name = "sensor_logger"
version = "0.1.0"
edition = "2021"
publish = false

[dependencies]
chrono = "0.4"
csv = "1"
serialport = { version = "4", default-features = false }
plotpy = "*"
