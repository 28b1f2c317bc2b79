[package]
name = "clip_win"
version = "0.1.0"
edition = "2021"
publish = false

[dependencies]
rusqlite = { version = "0.32", features = ["bundled"] }
arboard = "3"
enigo = "0.2"
serde = { version = "1", features = ["derive"] }
log = "0.4"
tokio = { version = "1", features = ["time", "rt"] }
windows = { version = "0.58", features = ["Win32_Foundation", "Win32_UI_WindowsAndMessaging", "Win32_System_DataExchange", "Win32_System_LibraryLoader"] }
