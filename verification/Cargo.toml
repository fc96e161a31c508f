[package]
name = "git_coauthors"
version = "0.1.0"
edition = "2021"
publish = false

[dependencies]
git2 = { version = "*", default-features = false }
structopt = "*"

[dev-dependencies]
tempfile = "*"
