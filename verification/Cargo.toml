[package]
name = "cap_recording"
version = "0.1.0"
edition = "2021"
publish = false

[dependencies]
anyhow = "1"
cidre = "*"
cocoa = "0.26"
device_query = "*"
ffmpeg-next = "7"
ffmpeg-sys-next = "7"
flume = "0.11"
futures = "0.3"
image = { version = "=0.25.5", default-features = false, features = ["png", "tiff"] }
log = "0.4"
objc = "0.2"
tokio = { version = "1", features = ["macros", "rt", "rt-multi-thread", "sync", "time"] }
tokio-util = "0.7"
tracing = "0.1"
windows = { version = "0.58", features = ["Win32_Foundation", "Win32_Graphics_Gdi", "Win32_UI_WindowsAndMessaging"] }
