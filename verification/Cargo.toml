[package]
name = "contemplate"
version = "0.1.0"
edition = "2021"
publish = false

[dependencies]
atty = "*"
base64 = "*"
chrono = "*"
clap = "*"
clap_complete = "*"
colored = "*"
daemonize = "*"
futures = "*"
hex = "*"
minijinja = "*"
nix = { version = "*", features = ["signal", "process"] }
notify = "*"
num_cpus = "*"
serde_json = "*"
serde_yaml = "*"
similar = "*"
sysinfo = "*"
tokio = { version = "*", features = ["rt-multi-thread", "sync", "process", "macros"] }
toml = "*"
which = "*"
