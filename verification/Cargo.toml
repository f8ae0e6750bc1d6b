[package]
name = "blasphemy"
version = "0.1.0"
edition = "2021"
publish = false

[dependencies]
webster = "*"
nanorand = "0.7"
http = "0.2"
hyper = { version = "0.14", features = ["server", "http1", "tcp"] }
tokio = { version = "1", features = ["rt-multi-thread"] }
ncurses = "*"
