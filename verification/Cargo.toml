[package]
name = "sharp_memory_display"
version = "0.1.0"
edition = "2021"

[dependencies]
embedded-hal = "0.2"
