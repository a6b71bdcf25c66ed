[package]
name = "brix"
version = "0.1.0"
edition = "2021"
publish = false

[dependencies]
base64 = "0.22"
ico = "0.4"
image = { version = "0.25", default-features = false, features = ["png"] }
percent-encoding = "2"
rfd = { version = "0.15", default-features = false, features = ["gtk3"] }
serde = { version = "1", features = ["derive"] }
serde_json = "1"
sha2 = "0.10"
tao = { version = "0.31", default-features = false, features = ["rwh_06"] }
tray-icon = { version = "0.19", default-features = false }
url = "2"
windows-sys = { version = "0.59", features = ["Win32_Foundation", "Win32_Graphics_Gdi", "Win32_Networking_WinHttp", "Win32_Security", "Win32_System_DataExchange", "Win32_System_JobObjects", "Win32_System_Memory", "Win32_System_Threading", "Win32_UI_Shell", "Win32_UI_WindowsAndMessaging"] }
wry = { version = "0.48", default-features = false, features = ["drag-drop", "os-webview", "protocol"] }
zip = { version = "2", default-features = false, features = ["deflate"] }
