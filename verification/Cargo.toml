[package]
name = "nested_partition_loader"
version = "0.1.0"
edition = "2021"
publish = false

[dependencies]
bootsector = "=0.2.0"
anyhow = "=1.0.104"
clap = "=2.34.0"
devicemapper = "=0.28.1"
nix = { version = "=0.31.3", features = ["fs"] }
uuid = "=1.27.0"
uefi = "=0.41.0"
