[package]
name = "screen_streaming"
version = "0.1.0"
edition = "2021"
publish = false

[dependencies]
async-trait = "0.1"
audiopus = "0.2"
bytes = "1"
ffmpeg-next = "9"
futures-util = "0.3"
local-ip-address = "0.6"
openh264 = "0.9"
rand = "0.10"
rtc = "0.20"
serde = { version = "1", features = ["derive"] }
serde_json = "1"
tokio = { version = "1", features = ["full"] }
tokio-tungstenite = "0.24"
wasapi = "*"
webrtc = "0.20"
windows-capture = "*"
