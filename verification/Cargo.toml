[package]
name = "mprs"
version = "0.1.0"
edition = "2021"
publish = false

[dependencies]
rand = "=0.8.8"
serde = { version = "=1.0.229", features = ["derive"] }
bincode = "=1.3.3"
lofty = "=0.22.4"
dirs = "=5.0.1"
log = "=0.4.34"
fern = "=0.6.2"
stopwatch = "=0.0.7"
tokio = { version = "=1.54.1", features = ["rt-multi-thread"] }
rspotify = { version = "=0.13.3", default-features = false, features = ["client-ureq", "ureq-rustls-tls"] }
egui = "0.27"
egui_extras = { version = "0.27", default-features = false, features = ["image"] }
image = { version = "0.24", default-features = false, features = ["jpeg", "png"] }
