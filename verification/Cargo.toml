[package]
name = "poster"
version = "0.1.0"
edition = "2021"
publish = false

[dependencies]
regex = "1"
egui = "0.24"
egui_extras = "0.24"
poll-promise = "0.3"
