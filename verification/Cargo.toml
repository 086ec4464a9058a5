[package]
name = "recense"
version = "0.1.0"
edition = "2021"
publish = false

[dependencies]
actix-files = "0.6"
actix-web = { version = "=4.18.1", features = ["secure-cookies"] }
argon2rs = "=0.2.5"
chrono = { version = "=0.4.45", features = ["serde"] }
env_logger = "=0.11.11"
failure = "=0.1.8"
handlebars = { version = "=6.4.4", features = ["dir_source"] }
html5ever = "=0.39.0"
markup5ever_rcdom = "=0.39.0"
http = "=1.5.0"
image = { version = "=0.25.10", default-features = false, features = ["png", "jpeg"] }
log = "=0.4.34"
pulldown-cmark = "=0.13.5"
rand_pcg = "=0.10.2"
serde = { version = "=1.0.229", features = ["derive"] }
serde_json = "=1.0.154"
sha1 = { version = "=0.6.1", features = ["std"] }
zip = { version = "=0.5.13", default-features = false, features = ["deflate"] }
