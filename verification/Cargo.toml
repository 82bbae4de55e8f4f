[package]
name = "await-tree"
version = "0.1.0"
edition = "2021"
publish = false

[dependencies]
coarsetime = "=0.1.38"
derive_builder = "=0.20.2"
easy-ext = "=1.0.3"
flexstr = "=0.9.2"
indextree = "=4.9.2"
itertools = "=0.15.0"
parking_lot = "=0.12.5"
pin-project = "=1.1.13"
proc-macro2 = "=1.0.107"
quote = "=1.0.47"
serde = { version = "=1.0.229", features = ["derive"] }
syn = { version = "=2.0.119", features = ["full"] }
task-local = "=0.1.1"
tokio = { version = "=1.54.1", features = ["rt"] }
tracing = "=0.1.44"
weak-table = "=0.3.2"
