[package]
name = "navmap_pathfinder"
version = "0.1.0"
edition = "2021"
publish = false

[dependencies]
byondapi = "*"
thiserror = "*"
