[package]
name = "prism_core"
version = "0.1.0"
edition = "2021"
publish = false

[dependencies]
anyhow = "*"
directories = "*"
freedesktop-desktop-entry = "*"
linicon = "*"
rayon = "*"
which = "*"
