[package]
name = "carver"
version = "0.1.0"
edition = "2021"
publish = false

[dependencies]
image = "=0.25.10"
clap = { version = "=4.6.7", features = ["derive"] }
thiserror = "=1.0.69"
rustc_apfloat = "*"
