[package]
name = "orbit"
version = "0.1.0"
edition = "2021"
publish = false

[dependencies]
glob = "0.3"
toml_edit = "*"
home = "0.5"
ignore = "0.4"
fs_extra = "1"
colored = "2"
clif = "*"
tempfile = "3"
git2 = { version = "*", default-features = false }
