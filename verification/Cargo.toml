[package]
name = "low_level_lab"
version = "0.1.0"
edition = "2021"
publish = false

[dependencies]
embedded-hal-nb = "=1.0.0"
nb = "=1.1.0"
i2cdev = "=0.6.2"
embedded-graphics = "=0.8.2"
cortex-m = "=0.7.10"
tokio = { version = "1", features = ["rt-multi-thread", "net", "io-util"] }
