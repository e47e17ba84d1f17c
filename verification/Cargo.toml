[package]
name = "mass_coverart"
version = "0.1.0"
edition = "2021"
publish = false

[dependencies]
image = "*"
image-compare = "*"
rand = "*"
anyhow = "*"
bytes = "*"
log = "*"
regex = "*"
form_urlencoded = "*"
audiotags = "*"
reqwest = { version = "*", default-features = false, features = ["rustls-tls"] }
tokio = { version = "*", default-features = false, features = ["rt-multi-thread", "macros", "sync", "time"] }
musicbrainz_rs = "*"
yt-search = "*"
