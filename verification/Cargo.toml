[package]
name = "himalaya"
version = "0.1.0"
edition = "2021"
publish = false

[dependencies]
anyhow = "=1.0.104"
clap = "=2.34.0"
env_logger = "=0.8.4"
imap = { version = "=2.4.1", default-features = false }
lettre = { version = "=0.10.4", default-features = false, features = ["builder", "smtp-transport"] }
mailparse = "=0.14.1"
percent-encoding = "=2.3.2"
url = "=2.2.2"
