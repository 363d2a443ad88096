[package]
name = "tuxinjector"
version = "0.1.0"
edition = "2021"
publish = false

[dependencies]
ab_glyph = "0.2"
crossbeam-channel = "0.5"
ctor = "0.2"
image = { version = "0.25", default-features = false, features = ["png", "jpeg", "gif"] }
libc = "0.2"
serde_json = "1"
tracing = "0.1"
tracing-subscriber = { version = "0.3", features = ["env-filter"] }
ureq = "2"
x11rb = { version = "0.13", features = ["res", "xtest"] }
