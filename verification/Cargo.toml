[package]
name = "swupdate_httpd"
version = "0.1.0"
edition = "2021"
publish = false

[dependencies]
actix-files = "0.6"
actix-web = { version = "4", default-features = false, features = ["macros"] }
clap = { version = "4", features = ["derive"] }
serde = "1"
serde_derive = "1"
