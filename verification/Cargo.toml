[package]
name = "subset_album"
version = "0.1.0"
edition = "2021"
publish = false

[dependencies]
anyhow = "*"
audiotags = "*"
eframe = { version = "*", default-features = false }
egui = "*"
rayon = "*"
