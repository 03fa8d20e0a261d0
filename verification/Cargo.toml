[package]
name = "oxicloud"
version = "0.1.0"
edition = "2021"
publish = false

[dependencies]
blake3 = "=1.8.7"
fastcdc = { version = "=3.2.1", features = ["tokio"] }
moka = { version = "=0.12.16", features = ["sync", "future"] }
tokio = { version = "=1.54.1", features = ["full"] }
tokio-util = { version = "=0.7.20", features = ["io"] }
futures = "=0.3.34"
bytes = "=1.12.1"
uuid = { version = "=1.29.0", features = ["v4"] }
image = { version = "0.25", default-features = false, features = ["jpeg", "png", "webp", "gif"] }
fast_image_resize = "5"
jpeg-decoder = "0.3"
webp = "0.3"
rayon = "1"
jsonwebtoken = "9"
serde = { version = "1", features = ["derive"] }
chrono = { version = "0.4", default-features = false, features = ["clock"] }

[dev-dependencies]
tempfile = "=3.27.0"
