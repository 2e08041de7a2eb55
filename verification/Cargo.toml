[package]
name = "escpos_viewer"
version = "0.1.0"
edition = "2021"
publish = false

[dependencies]
eframe = { version = "0.29", default-features = false, features = ["default_fonts", "glow", "x11"] }
gtk = "0.18"
ico = "0.3"
qrcode = { version = "0.14", default-features = false }
raw-window-handle = "0.6"
rfd = { version = "0.15", default-features = false, features = ["gtk3"] }
single-instance = "0.3"
tray-icon = { version = "0.19", default-features = false }
windows-sys = { version = "0.59", features = ["Win32_Foundation", "Win32_Graphics_Gdi", "Win32_UI_WindowsAndMessaging"] }
