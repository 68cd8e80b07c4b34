[package]
name = "greentic-flow"
version = "0.1.0"
edition = "2021"
publish = false

[dependencies]
anyhow = "1"
ciborium = "0.2"
clap = { version = "4", features = ["derive"] }
greentic-types = "*"
handlebars = "*"
jsonschema = { version = "*", default-features = false }
regex = "1"
serde = { version = "1", features = ["derive"] }
serde_json = "1"
serde_yaml_bw = "*"
sha2 = "0.10"
sys-locale = "0.3"
thiserror = "*"
unic-langid = "*"
