[package]
name = "ssh_permit_a38"
version = "0.1.0"
edition = "2021"
publish = false

[dependencies]
chrono = "0.4"
clap = "2"
colored = "1"
difference = "2.0"
rpassword = "2"
serde = "1"
serde_derive = "1"
serde_json = "1"
ssh2 = "0.3"
