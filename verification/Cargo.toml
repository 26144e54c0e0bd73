[package]
name = "ftp-utils"
version = "0.1.0"
edition = "2021"
publish = false

[dependencies]
glob = "0.3"
md5 = "*"
csv = "1"
clap = { version = "4", features = ["derive"] }
colored = "*"
serde = { version = "1", features = ["derive"] }
serde_json = "1"
rpassword = "7"
suppaftp = { version = "*", features = ["native-tls"] }
walkdir = "2"
