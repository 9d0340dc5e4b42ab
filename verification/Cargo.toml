[package]
name = "xray_propagation"
version = "0.1.0"
edition = "2021"
publish = false

[dependencies]
opentelemetry = "*"
