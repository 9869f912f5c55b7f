[package]
name = "velocity"
version = "0.1.0"
edition = "2021"
publish = false

[dependencies]
image = { version = "=0.25.10", default-features = false, features = ["png", "jpeg", "gif", "bmp", "webp", "tga", "tiff", "ico", "qoi", "pnm", "hdr"] }
intel_tex_2 = "=0.4.0"
link-cplusplus = "1"
quick-xml = "=0.37.5"
symphonia = "=0.5.5"
half = "=2.7.1"
ash = "=0.38.0"
ash-window = "=0.13.0"
raw-window-handle = "=0.6.2"
windows-sys = { version = "=0.61.2", features = ["Win32_Foundation", "Win32_System_LibraryLoader", "Win32_UI_HiDpi", "Win32_UI_Input_KeyboardAndMouse", "Win32_UI_WindowsAndMessaging", "Win32_Graphics_Gdi"] }
wasapi = "=0.26.0"
