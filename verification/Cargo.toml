[package]
name = "vizia_core"
version = "0.1.0"
edition = "2021"
publish = false

[dependencies]
morphorm = "*"
femtovg = "*"
keyboard-types = "*"
fluent-bundle = "*"
