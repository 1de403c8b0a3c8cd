[package]
name = "aozora_tools"
version = "0.1.0"
edition = "2021"
publish = false

[dependencies]
aozora = "0.4"
aozora-encoding = "*"
tree-sitter-aozora = "*"
serde = { version = "1", features = ["derive"] }
serde_json = "1"
thiserror = "2"
anyhow = "1"
clap = { version = "4", features = ["derive"] }
clap_complete = "4"
clap_complete_nushell = "4"
clap_mangen = "*"
walkdir = "2"
similar = "2"
anstream = "*"
anstyle = "1"
annotate-snippets = "0.11"
tower-lsp = "*"
tokio = { version = "1", features = ["full"] }
ropey = "1"
tree-sitter = "*"
dashmap = "*"
arc-swap = "1"
parking_lot = "*"
hdrhistogram = "7"
tracing = "0.1"
tracing-subscriber = "0.3"
notify-debouncer-mini = "*"
ctrlc = "3"
opener = "*"
