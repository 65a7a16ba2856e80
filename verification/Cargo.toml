[package]
name = "cmd_relay"
version = "0.1.0"
edition = "2021"
publish = false

[dependencies]
shell-words = "=1.1.1"
tokio = { version = "*", features = ["full"] }
tokio-util = { version = "*", features = ["codec"] }
warp = { version = "=0.4.3", features = ["server", "websocket"] }
futures = "*"
serde = { version = "*", features = ["derive"] }
serde_json = "*"
structopt = "*"
url = "*"
open = "*"
which = "*"
rfd = "*"
