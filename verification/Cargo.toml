[package]
name = "sqltree"
version = "0.1.0"
edition = "2021"
publish = false

[dependencies]
serde = { version = "*", features = ["derive"] }
serde_json = "*"
once_cell = "*"
proc-macro2 = "*"
quote = "*"
syn = { version = "1", features = ["full"] }
rexpr = "*"
