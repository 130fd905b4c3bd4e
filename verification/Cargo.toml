[package]
name = "mime_multipart"
version = "0.1.0"
edition = "2021"
publish = false

[dependencies]
buf-read-ext = "0.4"
http = "1"
httparse = "1"
mime = "0.3"
tempfile = "3"
textnonce = { version = "1", default-features = false }
