[package]
name = "bin_proto"
version = "0.1.0"
edition = "2021"
publish = false

[dependencies]
bitstream-io = "*"
thiserror = "2"
syn = { version = "2", features = ["full"] }
quote = "1"
proc-macro2 = "1"

[dev-dependencies]
proptest = "1"
