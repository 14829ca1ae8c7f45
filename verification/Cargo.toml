[package]
name = "dfu_packager"
version = "0.1.0"
edition = "2021"
publish = false

[dependencies]
byteorder = "=1.5.0"
crc32fast = "=1.5.3"
anyhow = "=1.0.104"
clap = { version = "=4.6.7", features = ["derive"] }
simplelog = "=0.12.2"
indicatif = "=0.17.11"
log = "=0.4.34"
env_logger = "=0.11.11"
dfu-core = "0.9"
dfu-libusb = "=0.5.5"
rusb = "=0.9.4"
eframe = { version = "=0.31.1", default-features = false, features = ["glow", "default_fonts", "x11"] }
rfd = { version = "=0.17.2", default-features = false, features = ["xdg-portal"] }
