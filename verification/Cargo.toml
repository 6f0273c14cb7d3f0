[package]
name = "soundtransfer"
version = "0.1.0"
edition = "2021"
publish = false

[dependencies]
anyhow = "1"
clap = { version = "4", features = ["derive"] }
cpal = "=0.18.2"
ctrlc = "3"
eframe = { version = "=0.37.0", default-features = false, features = ["default_fonts", "glow", "persistence", "x11"] }
env_logger = "=0.11.11"
gethostname = "=1.1.0"
log = "0.4"
mdns-sd = "=0.21.7"
ringbuf = "=0.4.8"
serde = { version = "1", features = ["derive"] }
serde_json = "1"
ureq = "=3.5.1"
windows-sys = { version = "=0.61.2", features = ["Win32_System_Console"] }
zip = { version = "=8.6.0", default-features = false, features = ["deflate"] }
