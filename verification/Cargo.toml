[package]
name = "flop"
version = "0.1.0"
edition = "2021"
publish = false

[dependencies]
ar = "=0.9.0"
async-trait = "=0.1.92"
async_zip = { version = "=0.0.19", features = ["tokio", "tokio-fs", "chrono", "deflate"] }
chrono = "=0.4.45"
cpio = "=0.4.1"
cpio_reader = "=0.1.2"
floppy-disk = "=0.2.6"
futures = "=0.3.34"
indexmap = "=2.14.2"
rand = "=0.10.3"
smoosh = "=0.2.1"
tokio = { version = "=1.54.1", features = ["full"] }
tokio-tar-up2date = { version = "=0.3.1", default-features = false }
tracing = "=0.1.44"
