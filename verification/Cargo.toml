[package]
name = "nintendo_formats"
version = "0.1.0"
edition = "2021"
publish = false

[dependencies]
radix_trie = "0.2"
yaz0 = "0.3"
encoding_rs = "0.8"
md-5 = "0.10"
aes = "0.8"
bytemuck = "1"
bitflags = "1"
thiserror = "1"
clap = { version = "4", features = ["derive"] }
globset = "0.4"
humansize = "1"
csv = "1"
comfy-table = "6"
atty = "0.2"
