[package]
name = "dashgen"
version = "0.1.0"
edition = "2021"
publish = false

[dependencies]
select = "*"
rusqlite = "*"
clap = "*"
fs_extra = "*"
glob = "*"
rayon = "*"
walkdir = "*"
