[package]
name = "ninjutso"
version = "0.1.0"
edition = "2021"
publish = false

[dependencies]
async-channel = "2"
clap = { version = "4", features = ["derive"] }
gtk4 = { version = "0.10", features = ["v4_10"] }
libadwaita = { version = "0.8", features = ["v1_6"] }
libc = "0.2"
serde = { version = "1", features = ["derive"] }
thiserror = "2"
ureq = { version = "2", features = ["json"] }
zbus = "5"
