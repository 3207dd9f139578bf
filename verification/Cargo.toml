[package]
name = "fanbox_dl_archive"
version = "0.1.0"
edition = "2021"
publish = false

[dependencies]
async-recursion = "=1.2.0"
chrono = "=0.4.45"
clap = { version = "=4.6.7", features = ["derive", "env"] }
clap-verbosity-flag = "=3.0.4"
console = "=0.16.6"
dotenv = "=0.15.0"
env_logger = "=0.11.11"
imagesize = "=0.15.0"
indicatif = "=0.18.6"
indicatif-log-bridge = "=0.2.3"
log = "=0.4.34"
mime_guess = "=2.0.5"
post-archiver = { version = "=0.4.5", features = ["importer"] }
rusqlite = { version = "0.32", features = ["bundled"] }
serde_json = "=1.0.154"
tokio = { version = "=1.54.1", features = ["full"] }
