[package]
name = "password_cracker"
version = "0.1.0"
edition = "2021"
publish = false

[dependencies]
hex = "0.4"
rayon = "1"
sha1 = "0.10"
structopt = "0.3"
