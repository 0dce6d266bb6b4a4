[package]
name = "libcitesync"
version = "0.1.0"
edition = "2021"
publish = false

[dependencies]
mime_guess = "*"
serde_json = "*"
biblatex = "*"
atom_syndication = "*"
poem = "*"
poem-openapi = { version = "*", features = ["swagger-ui"] }
tokio = { version = "*", features = ["macros", "rt-multi-thread", "sync"] }
clap = { version = "*", features = ["derive", "env", "cargo"] }
confy = "*"
serde = { version = "*", features = ["derive"] }
serde_derive = "*"
eyre = "*"
tracing = "*"
tracing-subscriber = "*"
