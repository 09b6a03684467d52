[package]
name = "seanvim"
version = "0.1.0"
edition = "2021"
publish = false

[dependencies]
async-h1 = "=2.3.4"
futures = "=0.3.34"
http-types = "=2.12.0"
libuv = "=2.15.0"
libuv-sys2 = "=1.53.1"
nvim-oxi = { version = "=0.6.0", features = ["neovim-0-10"] }
serde = { version = "=1.0.229", features = ["derive"] }
serde_json = "=1.0.154"
