[package]
name = "gpui_platform"
version = "0.1.0"
edition = "2021"
publish = false

[dependencies]
etagere = "0.2"
image = { version = "0.25", default-features = false, features = ["png"] }
parking_lot = "0.12"
anyhow = "1"
log = "0.4"
windows = { version = "0.61", features = ["Win32_Foundation", "Win32_Graphics_Direct3D", "Win32_Graphics_Direct3D11", "Win32_Graphics_Dxgi_Common", "Win32_Graphics_Gdi", "Win32_Graphics_Dwm", "Win32_UI_WindowsAndMessaging", "Win32_UI_HiDpi", "Win32_System_LibraryLoader", "UI_ViewManagement", "Foundation"] }
cocoa = "0.26"
objc = "0.2"
core-foundation = "0.10"
