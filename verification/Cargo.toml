[package]
name = "ci-manager"
version = "0.5.0"
edition = "2021"
publish = false

[dependencies]
distance = "0.4"
time = { version = "0.3", features = ["parsing", "formatting"] }
octocrab = "0.38"
tokio = { version = "1", features = ["macros", "rt-multi-thread"] }
clap = { version = "4", features = ["derive"] }
clap_complete = "4"
stderrlog = "0.6"
log = "0.4"
anyhow = "1"
zip = { version = "0.6", default-features = false, features = ["deflate"] }
hyper = "1"
http-body-util = "0.1"
strum = { version = "0.26", features = ["derive"] }

[dev-dependencies]
regex = "1"
