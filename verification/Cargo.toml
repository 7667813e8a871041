[package]
name = "snart_laser"
version = "0.1.0"
edition = "2021"
publish = false

[dependencies]
crc32fast = "=1.5.4"
serde = { version = "=1.0.229", features = ["derive"] }
serde_json = "=1.0.154"
toml = "=0.8.23"
uuid = { version = "=1.29.0", features = ["v4", "serde"] }
dirs = "=5.0.1"
anyhow = "=1.0.104"
tokio = { version = "=1.54.1", features = ["rt", "sync", "time"] }
serialport = { version = "=4.10.1", default-features = false }
usvg = { version = "0.45", default-features = false }
windows-sys = { version = "0.59", features = ["Win32_Foundation", "Win32_Devices_DeviceAndDriverInstallation", "Win32_Graphics_Printing", "Win32_Graphics_Gdi", "Win32_Security"] }
