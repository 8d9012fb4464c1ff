[package]
name = "zj_status_bar"
version = "0.1.0"
edition = "2021"
publish = false

[dependencies]
zellij-tile = "*"
