[package]
name = "thumbv8m_mpu"
version = "0.1.0"
edition = "2021"
publish = false

[dependencies]
arbitrary-int = "*"
cortex-m = "0.7"
