[package]
name = "simple_path"
version = "0.1.0"
edition = "2021"
publish = false

[dependencies]
dunce = "=1.0.5"
anyhow = "=1.0.104"
log = "=0.4.35"
windows = { version = "=0.58.0", features = ["Win32_Foundation", "Win32_Storage_FileSystem", "Win32_System_WindowsProgramming", "Win32_NetworkManagement_WNet"] }
