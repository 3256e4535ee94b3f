[package]
name = "micbridge"
version = "1.0.0"
edition = "2021"
publish = false

[dependencies]
anyhow = "=1.0.104"
clap = { version = "=4.6.7", features = ["derive", "env"] }
cpal = "=0.15.3"
eframe = { version = "=0.35.0", default-features = false, features = ["glow", "default_fonts", "x11"] }
hound = "=3.5.1"
if-addrs = "=0.15.0"
ringbuf = "=0.4.8"
rmp-serde = "=1.3.1"
serde = { version = "=1.0.229", features = ["derive"] }
thiserror = "=2.0.21"
tracing = "=0.1.44"
tracing-subscriber = { version = "=0.3.23", default-features = false, features = ["env-filter", "fmt"] }
tray-icon = { version = "=0.26.1", default-features = false }
winreg = "=0.56.0"
