[package]
name = "formrelay"
version = "0.1.0"
edition = "2021"
publish = false

[dependencies]
lettre = { version = "*", default-features = false, features = ["smtp-transport", "builder"] }
signal-hook = "*"
