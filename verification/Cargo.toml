[package]
name = "bwfs"
version = "0.1.0"
edition = "2021"
publish = false

[dependencies]
anyhow = "1"
clap = { version = "4", features = ["derive"] }
fuser = { version = "=0.15.1", default-features = false }
libc = "0.2"
rpassword = "7"
serde = { version = "1", features = ["derive"] }
serde_json = "1"
serde_repr = "0.1"
sysinfo = "=0.30.13"
time = { version = "=0.3.55", features = ["serde", "formatting", "parsing"] }
tracing = "0.1"
tracing-subscriber = "0.3"
uuid = { version = "=1.29.0", features = ["serde"] }
