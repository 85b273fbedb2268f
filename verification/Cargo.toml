[package]
name = "lua_replace"
version = "0.1.0"
edition = "2021"
publish = false

[dependencies]
lazy_static = "*"
parking_lot = "*"
skyline = "*"
nnsdk = "*"
skyline_smash = "*"
