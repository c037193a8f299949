[package]
name = "questbot"
version = "0.1.0"
edition = "2021"
publish = false

[dependencies]
sled = "=0.34.7"
chrono = "=0.4.45"
teloxide = { version = "=0.12.2", default-features = false, features = ["rustls", "ctrlc_handler"] }
tokio = { version = "*", features = ["macros", "rt-multi-thread", "time"] }
dotenvy = "*"
pretty_env_logger = "*"
# Not used directly: pins a transitive dependency of teloxide-core to the
# newest version that the rustc building this crate accepts.
takecell = "=0.1.1"
