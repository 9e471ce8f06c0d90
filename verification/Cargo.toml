[package]
name = "dbtp"
version = "0.1.0"
edition = "2021"
publish = false

[dependencies]
arrow = { version = "54", default-features = false, features = ["ipc"] }
base64 = "0.22"
chrono = "0.4"
clap = { version = "4", features = ["derive", "env"] }
clap_complete = "4"
directories = "5"
indicatif = "0.17"
reqwest = { version = "0.12", default-features = false, features = ["json", "rustls-tls"] }
serde = { version = "1", features = ["derive"] }
serde_json = "1"
serde_yaml = "0.9"
tabled = "0.16"
thiserror = "2"
tokio = { version = "1", features = ["macros", "rt-multi-thread", "time"] }
toml = "0.8"
