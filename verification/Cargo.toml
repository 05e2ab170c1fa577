[package]
name = "installer"
version = "0.1.0"
edition = "2021"
publish = false

[dependencies]
better-panic = "0.3"
color-eyre = "0.6"
crossterm = { version = "0.28", features = ["event-stream", "serde"] }
directories = "*"
dmidecode = "*"
futures = "0.3"
human-panic = "2"
lazy_static = "1"
libblkid-rs = "*"
libc = "0.2"
ratatui = { version = "0.29", features = ["serde"] }
serde = { version = "1", features = ["derive"] }
signal-hook = "0.3"
strip-ansi-escapes = "0.2"
thiserror = "*"
tokio = { version = "1", features = ["full"] }
tokio-util = "0.7"
tracing = "0.1"
tracing-error = "0.2"
tracing-subscriber = { version = "0.3", features = ["env-filter"] }
udev = "*"
zbus = { version = "*", features = ["tokio"] }
zvariant = "*"
