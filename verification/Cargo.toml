[package]
name = "blueprint2mod"
version = "0.1.0"
edition = "2021"
publish = false

[dependencies]
image = { version = "=0.25.10", default-features = false, features = ["jpeg", "png"] }
imageproc = { version = "=0.25.1", default-features = false }
serde = { version = "=1.0.229", features = ["derive"] }
serde_json = "=1.0.154"
uuid = { version = "=1.29.0", features = ["v4", "serde"] }
chrono = { version = "=0.4.45", default-features = false, features = ["clock", "std"] }
dirs = "=7.0.0"
anyhow = "=1.0.104"
stl_io = "=0.11.0"
rayon = "=1.12.0"
tempfile = "=3.27.0"
eframe = { version = "0.29", default-features = false, features = ["glow", "x11", "default_fonts"] }
