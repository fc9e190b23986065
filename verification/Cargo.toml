[package]
name = "savio"
version = "0.1.0"
edition = "2021"
publish = false

[dependencies]
serde_json = "=1.0.154"
sysinfo = { version = "=0.40.1", default-features = false, features = ["system", "disk", "network"] }
starship-battery = "=0.12.0"
nusb = "=0.2.9"
eframe = { version = "=0.37.0", default-features = false, features = ["wgpu", "x11"] }
rfd = "*"
