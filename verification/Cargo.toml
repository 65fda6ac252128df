[package]
name = "astro_plugins"
version = "0.1.0"
edition = "2021"
publish = false

[dependencies]
aes = "0.8"
base64 = "0.22"
cipher = { version = "0.4", features = ["block-padding", "alloc"] }
crc32fast = "1"
flate2 = "1"
image = { version = "0.25", default-features = false, features = ["jpeg", "png"] }
lz4_flex = "0.11"
md-5 = "0.10"
mp3-duration = "*"
nskeyedarchiver_converter = "*"
num-bigint = "0.4"
qrcode = { version = "0.14", default-features = false, features = ["svg"] }
serde = { version = "1", features = ["derive"] }
serde_json = "1"
tracing = "0.1"
tracing-subscriber = "0.3"
url = "2"
waki = "*"
zip = { version = "2", default-features = false, features = ["deflate"] }
