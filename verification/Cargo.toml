[package]
name = "depdiff"
version = "0.1.0"
edition = "2021"
publish = false

[dependencies]
exitfailure = "*"
once_cell = "*"
prettytable-rs = "*"
regex = "*"
serde = { version = "1", features = ["derive"] }
serde_json = "1"
structopt = "*"
which = "*"
