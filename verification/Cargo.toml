[package]
name = "headlamp"
version = "0.1.0"
edition = "2021"
publish = false

[dependencies]
strip-ansi-escapes = "=0.2.1"
unicode-width = "=0.2.3"
sha1 = "=0.10.7"
hex = "=0.4.3"
serde = { version = "=1.0.229", features = ["derive"] }
serde_json = "=1.0.154"
terminal_size = "=0.4.4"
regex = "=1.13.1"
indexmap = "=2.14.2"
path-slash = "=0.2.1"
dunce = "=1.0.5"
which = "=8.0.6"
globset = "0.4"
pathdiff = "0.2"
semver = "1"
