[package]
name = "theme_settings"
version = "0.1.0"
edition = "2021"
publish = false

[dependencies]
glib = "0.20"
gtk4 = "0.9"
