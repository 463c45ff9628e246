[package]
name = "gitpersona"
version = "0.6.0"
edition = "2021"
publish = false

[dependencies]
regex = "1"
url = "2"
directories = "*"
serde = { version = "1", features = ["derive"] }
serde_json = "1"
toml = "*"
clap = { version = "4", features = ["derive"] }
clap_complete = "4"
dialoguer = "*"
fs2 = "0.4"
tempfile = "3"
wait-timeout = "0.2"
