[package]
name = "volume11"
version = "0.2.0"
edition = "2021"
publish = false

[dependencies]
serde = { version = "=1.0.229", features = ["derive"] }
serde_json = "=1.0.154"
crossbeam-channel = "=0.5.17"
egui = "=0.37.0"
egui-wgpu = "=0.37.0"
eframe = { version = "=0.37.0", default-features = false, features = ["wgpu", "default_fonts", "x11"] }
windows = { version = "=0.59.0", features = ["Win32_Foundation", "Win32_Security", "Win32_Media_Audio", "Win32_Media_Audio_Endpoints", "Win32_System_Com", "Win32_System_Com_StructuredStorage", "Win32_System_Variant", "Win32_System_Threading", "Win32_System_Registry", "Win32_System_SystemInformation", "Win32_System_LibraryLoader", "Win32_Storage_FileSystem", "Win32_UI_WindowsAndMessaging", "Win32_UI_Shell", "Win32_UI_Shell_PropertiesSystem", "Win32_UI_HiDpi", "Win32_Graphics_Gdi", "Win32_Devices_FunctionDiscovery", "Win32_Devices_Properties"] }
