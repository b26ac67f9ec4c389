[package]
name = "rapidarchive"
version = "0.1.0"
edition = "2021"
publish = false

[dependencies]
argparse = "0.2"
libc = "0.2"
num = "0.2"
num-traits = "0.2"
pad = "0.1"
rayon = "1"

[dev-dependencies]
rand = "0.8"
