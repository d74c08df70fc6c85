[package]
name = "cuthulhu"
version = "0.1.0"
edition = "2021"
publish = false

[dependencies]
serde = { version = "1", features = ["derive"] }
serde_json = "1"
dirs = "*"
tempfile = "3"
zip = { version = "2", default-features = false, features = ["deflate"] }
usvg = "*"
image = { version = "0.25", default-features = false, features = ["png"] }
vtracer = "*"
fontdb = "*"
ttf-parser = "*"
i_overlay = "*"
serialport = { version = "4", default-features = false }
nusb = "0.1"
futures-lite = "2"
