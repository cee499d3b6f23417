[package]
name = "lance_cuvs"
version = "0.1.0"
edition = "2021"
publish = false

[dependencies]
arrow = { version = "58", default-features = false }
arrow-array = "58"
arrow-schema = "58"
backtrace = "0.3"
cuvs-sys = "26.2"
futures = "0.3"
lance-arrow = "9"
lance-core = { version = "9", default-features = false }
lance-encoding = { version = "9", default-features = false }
lance-file = { version = "9", default-features = false }
lance-io = { version = "9", default-features = false }
lance-linalg = { version = "9", default-features = false }
libc = "0.2"
log = "0.4"
ndarray = "0.16"
nvtx = "1.3"
tokio = { version = "1", features = ["rt-multi-thread", "macros"] }
