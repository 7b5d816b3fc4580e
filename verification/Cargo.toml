[package]
name = "package_search"
version = "0.1.0"
edition = "2021"
publish = false

[dependencies]
flate2 = "=1.1.10"
gotham = { version = "=0.8.1", default-features = false }
gotham_derive = "=0.8.1"
hyper = "=1.12.0"
lazy_static = "=1.5.1"
mime = "=0.3.17"
reqwest = { version = "=0.13.5", default-features = false, features = ["blocking"] }
rusqlite = { version = "=0.41.0", features = ["bundled"] }
serde = "=1.0.229"
serde_derive = "=1.0.229"
tera = { version = "=2.4.0", default-features = false, features = ["glob_fs"] }
