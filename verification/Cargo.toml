[package]
name = "recipes"
version = "0.1.0"
edition = "2021"
publish = false

[dependencies]
unicode-normalization = "=0.1.25"
bcrypt = "=0.19.3"
actix-web = "=4.15.0"
actix-files = "=0.7.0"
actix-identity = "=0.9.0"
actix-session = { version = "=0.11.0", features = ["cookie-session"] }
tokio = { version = "=1.53.2", features = ["full"] }
serde = { version = "=1.0.229", features = ["derive"] }
serde_json = "=1.0.151"
tera = { version = "=2.4.0", features = ["glob_fs"] }
comrak = "=0.55.0"
config = "=0.15.27"
