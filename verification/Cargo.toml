[package]
name = "ssh_keys"
version = "0.1.0"
edition = "2021"
publish = false

[dependencies]
uuid = { version = "1", features = ["v4"] }
anyhow = "1"
tokio = { version = "1", features = ["macros", "rt-multi-thread"] }
structopt = "0.3"
rusoto_core = { version = "0.48", default-features = false, features = ["rustls"] }
rusoto_credential = "0.48"
rusoto_secretsmanager = { version = "0.48", default-features = false, features = ["rustls"] }

[dev-dependencies]
serde_json = "1"
