[package]
name = "karton"
version = "0.1.0"
edition = "2021"
publish = false

[dependencies]
md5 = "0.7"
base64 = "0.22"
rand = "0.9"
infer = "0.19"
imagesize = "0.14"
mime_guess = "2"
image = { version = "0.25", default-features = false, features = ["jpeg", "png"] }
fast_image_resize = { version = "5", features = ["image"] }
serde = { version = "1", features = ["derive"] }
serde_json = "1"
axum = "0.8"
tokio = { version = "1", features = ["full"] }
clap = { version = "4", features = ["derive"] }
directories = "6"
memory-stats = "1"
webbrowser = "1"
tower = "0.5"
tower-sessions = "0.14"
time = "0.3"
tokio-stream = { version = "0.1", features = ["sync"] }
tokio-util = { version = "0.7", features = ["io"] }
reqwest = { version = "0.12", default-features = false, features = ["json"] }
rust-embed = "8"
askama = "0.14"
tokio-js-set-interval = "*"
zip = { version = "2", default-features = false }
