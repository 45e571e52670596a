[package]
name = "newton_hypervisor"
version = "0.1.0"
edition = "2021"
publish = false

[dependencies]
embedded-sdmmc = { version = "0.9", default-features = false }
