[package]
name = "gnome_power_toys"
version = "0.1.0"
edition = "2021"
publish = false

[dependencies]
sha2 = "0.10"
hex = "0.4"
rusqlite = { version = "0.31", features = ["bundled"] }
zbus = { version = "4", default-features = false, features = ["tokio"] }
tokio = { version = "1", features = ["rt-multi-thread", "macros", "sync", "time", "signal"] }
serde = { version = "1", features = ["derive"] }
thiserror = "1"
tracing = "0.1"
tracing-subscriber = { version = "0.3", features = ["env-filter"] }
dirs = "5"
async-trait = "0.1"
futures-util = "0.3"
async-channel = "2"
ksni = "0.2"
wl-clipboard-rs = "0.8"
x11-clipboard = "0.9"
gtk4 = "0.8"
libadwaita = "0.6"
