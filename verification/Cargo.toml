[package]
name = "edge_shortcut_tool"
version = "0.1.0"
edition = "2021"
publish = false

[dependencies]
native-windows-gui = "1.0.13"
windows = { version = "0.61", features = ["Win32_Foundation", "Win32_Graphics_Gdi", "Win32_UI_Input_KeyboardAndMouse", "Win32_UI_WindowsAndMessaging", "Win32_System_Com", "Win32_UI_Shell", "Win32_UI_Shell_Common"] }
