[package]
name = "bizclaw_brain"
version = "0.1.0"
edition = "2021"
publish = false
