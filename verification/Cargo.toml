[package]
name = "ci_web"
version = "0.1.0"
edition = "2021"
publish = false

[dependencies]
cgi = "*"
git2 = { version = "*", default-features = false }
querystring = "*"
regex = "*"
