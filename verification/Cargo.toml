[package]
name = "permhash"
version = "0.1.0"
edition = "2021"
publish = false

[dependencies]
clap = "2"
digest = "0.7"
md-5 = "0.7"
permutohedron = "0.2"
rayon = "1"
rustc-serialize = "0.3"
sha-1 = "0.7"
sha2 = "0.7"
time = "0.1"

[dev-dependencies]
generic-array = "0.9"
