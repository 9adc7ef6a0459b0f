[package]
name = "personal"
version = "0.1.0"
edition = "2021"
publish = false

[dependencies]
askama = "=0.16.1"
axum = "=0.8.9"
chrono = { version = "=0.4.45", features = ["serde"] }
git2 = "=0.21.0"
pulldown-cmark = { version = "=0.13.5", default-features = false, features = ["html"] }
serde = { version = "=1.0.229", features = ["derive"] }
serde_yaml = "=0.9.34"
tempfile = "=3.27.0"
thiserror = "=2.0.21"
tokio = { version = "=1.54.1", features = ["full"] }
tower-http = { version = "=0.7.1", features = ["fs"] }
utoipa = { version = "=5.5.0", features = ["axum_extras", "chrono"] }
utoipa-swagger-ui = { version = "=9.0.2", features = ["axum", "vendored"] }

[dev-dependencies]
regex = "=1.13.1"
