[package]
name = "anlocales"
version = "0.1.0"
edition = "2021"
publish = false

[dependencies]
chrono = { version = "0.4", default-features = false, features = ["std"] }
meval = "0.2"
unicode-normalization = "0.1"
unicode-general-category = "*"
serde = { version = "1", features = ["derive"] }
serde_json = "1"
toml = "*"
nix = { version = "*", features = ["user"] }
is-admin = "*"
