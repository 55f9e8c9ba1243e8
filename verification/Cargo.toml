[package]
name = "zen_core"
version = "0.1.0"
edition = "2021"
publish = false

[dependencies]
chrono = { version = "=0.4.45", default-features = false, features = ["clock"] }
iced = { version = "=0.13.1", default-features = false, features = ["tiny-skia"] }
rfd = { version = "=0.15.4", default-features = false, features = ["xdg-portal", "tokio"] }
