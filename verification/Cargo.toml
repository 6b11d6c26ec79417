[package]
name = "btwin"
version = "0.1.0"
edition = "2021"
publish = false

[dependencies]
btleplug = "0.5"
thiserror = "1"
winapi = { version = "0.3", features = ["bluetoothapis", "winerror", "errhandlingapi", "handleapi", "minwinbase", "winnt"] }
windows = { version = "0.58", features = ["Devices_Enumeration", "Devices_Bluetooth", "Foundation"] }
