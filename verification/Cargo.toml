[package]
name = "windows-platform-probes"
version = "0.1.0"
edition = "2021"
publish = false

[dependencies]
portable-atomic = "1"
windows-sys = { version = "0.59", features = ["Win32_Foundation", "Win32_Security", "Win32_Storage_FileSystem", "Win32_System_Diagnostics_Debug", "Win32_System_Environment", "Win32_System_IO", "Win32_System_Threading"] }
