[package]
name = "gladesync"
version = "0.1.0"
edition = "2021"
publish = false

[dependencies]
base64 = "0.22"
zip = { version = "0.6", default-features = false, features = ["deflate"] }
serde = { version = "1", features = ["derive"] }
serde_json = "1"
socket2 = "0.5"
walkdir = "2"
tiny-skia = { version = "0.11", default-features = false, features = ["std"] }
windows-sys = { version = "0.59", features = ["Win32_Foundation", "Win32_System_SystemServices", "Win32_System_LibraryLoader", "Win32_UI_Input_KeyboardAndMouse", "Win32_UI_WindowsAndMessaging", "Win32_System_Console", "Win32_Graphics_Gdi", "Win32_System_Threading"] }
