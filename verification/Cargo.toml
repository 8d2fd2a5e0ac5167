[package]
name = "skipper"
version = "0.1.0"
edition = "2021"
publish = false

[dependencies]
atomic_refcell = "=0.1.14"
egui = { version = "=0.34.3", default-features = false }
nih_plug_egui = "=0.1.2"
serde_json = "=1.0.154"
ureq = "=2.12.1"
