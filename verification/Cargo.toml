[package]
name = "fits_ingest"
version = "0.1.0"
edition = "2021"
publish = false

[dependencies]
glob-match = "*"
astrors = "*"
astrors-fork = "*"
ndarray = "*"
polars = { version = "*", default-features = false }
rayon = "*"
