[package]
name = "infochallenge"
version = "0.1.0"
edition = "2021"
publish = false

[dependencies]
clap = "*"
itertools = "*"
noodles = { version = "*", features = ["bcf", "vcf", "csi"] }
rayon = "*"
sync_file = "*"
