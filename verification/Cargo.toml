[package]
name = "save_manager"
version = "0.1.0"
edition = "2021"
publish = false

[dependencies]
dashmap = "*"
dirs = "*"
dropbox-sdk = "*"
gio = "0.18"
gtk = "0.18"
hyper = { version = "0.14", features = ["server", "http1", "tcp"] }
lazy_static = "1"
log = "0.4"
notify = "*"
pretty_env_logger = "*"
reqwest = { version = "*", default-features = false, features = ["blocking"] }
serde = { version = "1", features = ["derive"] }
serde_json = "1"
sysinfo = "*"
tokio = { version = "1", features = ["macros", "rt-multi-thread"] }
