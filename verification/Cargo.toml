[package]
name = "widgetry_panel"
version = "0.1.0"
edition = "2021"
publish = false

[dependencies]
stretch = "0.3.2"
