[package]
name = "genuint"
version = "0.1.0"
edition = "2021"
publish = false

[dependencies]
ibig = { version = "*", default-features = false, features = ["std"] }
type-const = "*"
