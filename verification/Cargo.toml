[package]
name = "diff_core"
version = "0.1.0"
edition = "2021"
publish = false

[dependencies]
urlencoding = "2"
ssh2-config = "*"
git2 = { version = "*", default-features = false }
serde = { version = "1", features = ["derive"] }
serde_json = "1"
thiserror = "*"
notify = "*"
notify-debouncer-full = "*"
rusqlite = { version = "*", features = ["bundled"] }
ureq = { version = "*", default-features = false }
dirs = "*"
