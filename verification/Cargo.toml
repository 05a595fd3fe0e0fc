[package]
name = "areum"
version = "0.1.0"
edition = "2021"
publish = false

[dependencies]
anyhow = "=1.0.104"
axum = { version = "=0.7.9", default-features = false, features = ["http1", "tokio"] }
blake2 = "=0.10.6"
bs58 = "=0.5.1"
clap = { version = "=4.6.7", default-features = false, features = ["derive", "error-context", "help", "std", "usage"] }
deno_ast = "0.34"
deno_core = "0.264"
deno_emit = "0.38"
deno_graph = "0.69"
globset = "=0.4.20"
ignore = "=0.4.33"
lightningcss = { version = "=1.0.0-alpha.72", default-features = false, features = ["visitor"] }
lol_html = "=1.2.1"
mdxjs = "0.1"
notify = { version = "=6.1.1", default-features = false }
rand = "=0.8.8"
reqwest = { version = "0.12", default-features = false }
serde = { version = "=1.0.229", features = ["derive"] }
serde_json = "=1.0.154"
serde_v8 = "0.173"
tokio = { version = "=1.54.1", features = ["macros", "net", "rt-multi-thread", "signal", "sync"] }
url = "=2.5.8"
walkdir = "=2.5.0"
