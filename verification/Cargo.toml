[package]
name = "lfstage"
version = "0.1.0"
edition = "2021"
publish = false

[dependencies]
clap = { version = "*", features = ["derive"] }
futures = "*"
is_executable = "*"
libc = "*"
num_cpus = "*"
reqwest = { version = "*", default-features = false, features = ["stream"] }
serde = { version = "*", features = ["derive"] }
size = "*"
tempfile = "*"
tokio = { version = "*", features = ["macros", "rt-multi-thread"] }
toml = "*"
tracing = "*"
tracing-appender = "*"
tracing-subscriber = { version = "*", features = ["env-filter"] }
