[package]
name = "exif_file_tool"
version = "0.1.0"
edition = "2021"
publish = false

[dependencies]
chrono = "=0.4.45"
regex = "=1.13.1"
time = { version = "=0.3.55", features = ["formatting", "parsing"] }
unicode-width = "=0.2.3"
filetime = "=0.2.29"
image = { version = "=0.25.10", default-features = false, features = ["gif", "jpeg", "png"] }
eframe = { version = "=0.31.1", default-features = false, features = ["default_fonts", "glow", "x11"] }
egui_extras = { version = "=0.31.1", default-features = false }
