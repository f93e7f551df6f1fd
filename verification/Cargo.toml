[package]
name = "stager"
version = "0.3.0"
edition = "2021"
publish = false

[dependencies]
liquid = "=0.26.11"
kstring = "=2.0.2"
globwalk = "=0.9.1"
serde = { version = "*", features = ["derive"] }
serde_json = "*"
serde_yaml = "*"
toml = "*"
structopt = "*"
env_logger = "*"
log = "*"
exitcode = "*"
