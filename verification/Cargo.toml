[package]
name = "invoice_qr"
version = "0.1.0"
edition = "2021"
publish = false

[dependencies]
csv = "1.3"
image = { version = "0.25", default-features = false, features = ["png"] }
rqrr = "0.9"
anyhow = "1"
eframe = { version = "0.31", default-features = false, features = ["default_fonts", "glow", "x11"] }
egui = "0.31"
rfd = "0.15"
env_logger = { version = "0.11", default-features = false }
windows = { version = "0.58", features = ["Data_Pdf", "Foundation", "Graphics_Imaging", "Storage", "Storage_Streams"] }
