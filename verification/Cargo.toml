[package]
name = "cdp_tools"
version = "0.1.0"
edition = "2021"
publish = false

[dependencies]
anyhow = "1"
once_cell = "1"
windows-version = "0.1"
