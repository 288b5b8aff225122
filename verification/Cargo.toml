[package]
name = "hud_manager"
version = "0.1.0"
edition = "2021"
publish = false

[dependencies]
anyhow = "1"
names = { version = "0.14", default-features = false }
nucleo-matcher = "0.3"
open = "5"
walkdir = "2"
