[package]
name = "vxapo_driver"
version = "0.1.0"
edition = "2021"
publish = false

[dependencies]
log = "=0.4.35"
once_cell = "=1.21.4"
serde = { version = "=1.0.229", features = ["derive"] }
windows = { version = "=0.52.0", features = [
    "implement",
    "Win32_Devices_Properties",
    "Win32_Foundation",
    "Win32_Globalization",
    "Win32_Media_Audio",
    "Win32_Media_Audio_Apo",
    "Win32_Media_KernelStreaming",
    "Win32_Security",
    "Win32_System_Com",
    "Win32_System_Com_StructuredStorage",
    "Win32_System_Diagnostics_ToolHelp",
    "Win32_System_LibraryLoader",
    "Win32_System_Registry",
    "Win32_System_Services",
    "Win32_System_Threading",
    "Win32_System_Variant",
    "Win32_UI_Shell_PropertiesSystem",
] }
