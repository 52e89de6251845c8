[package]
name = "git-sprout"
version = "0.1.0"
edition = "2021"
publish = false

[dependencies]
filetime = "=0.2.29"
gix-hash = { version = "=0.28.1", features = ["sha1", "sha256"] }
gix-index = { version = "=0.58.0", features = ["sha1", "sha256"] }
libc = "=0.2.191"
