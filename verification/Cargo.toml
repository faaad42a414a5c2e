[package]
name = "systemd_boot_conf"
version = "0.1.0"
edition = "2021"
publish = false

[dependencies]
itertools = "*"
once_cell = "1"
thiserror = "1"
