[package]
name = "ipflip"
version = "0.1.0"
edition = "2021"
publish = false

[dependencies]
directories = "=6.0.0"
eframe = { version = "=0.31.1", default-features = false, features = ["default_fonts", "glow", "x11"] }
image = { version = "=0.25.10", default-features = false, features = ["ico", "png"] }
serde_json = { version = "=1.0.154", features = ["preserve_order"] }
windows-sys = { version = "=0.59.0", features = ["Win32_Foundation", "Win32_UI_HiDpi", "Win32_UI_Shell", "Win32_UI_WindowsAndMessaging"] }
