[package]
name = "mdbook-epub"
version = "0.5.0"
edition = "2021"
publish = false

[dependencies]
url = "*"
pulldown-cmark = "*"
html_parser = "*"
mime_guess = "*"
infer = "*"
handlebars = "*"
serde_json = "*"
semver = "*"
serde = { version = "*", features = ["derive"] }
mdbook-core = "*"
mdbook-renderer = "*"
mdbook-driver = "*"
clap = { version = "*", features = ["derive"] }
epub-builder = "*"
ureq = "*"
tracing = "*"
tracing-subscriber = { version = "*", features = ["env-filter"] }
thiserror = "*"
toml = "*"
