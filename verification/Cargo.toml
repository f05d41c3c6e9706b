[package]
name = "nickel"
version = "0.1.0"
edition = "2021"
publish = false

[dependencies]
codespan = "0.11"
codespan-reporting = "0.11"
codespan-lsp = "0.11"
comrak = { version = "0.12", default-features = false }
log = "0.4"
lsp-server = "0.5"
lsp-types = "0.88"
pretty = "0.11"
serde_json = "1.0"
