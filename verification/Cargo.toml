[package]
name = "inkpdf"
version = "0.1.0"
edition = "2021"
publish = false

[dependencies]
anyhow = "1"
flate2 = "1"
landlock = "*"
libc = "0.2"
seccompiler = "*"
serde = { version = "1", features = ["derive"] }
serde_json = "1"
uuid = { version = "1", features = ["v4", "serde"] }
gtk4 = "*"
libadwaita = "*"
poppler-rs = "*"
ink-stroke-modeler-rs = "*"
