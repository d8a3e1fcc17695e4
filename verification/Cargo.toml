[package]
name = "timing_oracle"
version = "0.1.0"
edition = "2021"
publish = false

[dependencies]
rayon = "1"
rustls = "0.21"
webpki-roots = "0.25"
