[package]
name = "op_store"
version = "0.1.0"
edition = "2021"
publish = false

[dependencies]
fxhash = "=0.2.1"
leb128 = "=0.2.7"
thiserror = "=1.0.69"
get-size = { version = "=0.1.4", features = ["derive"] }
