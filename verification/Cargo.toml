[package]
name = "rls_analysis"
version = "0.10.0"
edition = "2021"
publish = false

[dependencies]
env_logger = "=0.4.3"
log = "=0.3.9"
rls-data = "=0.19.1"
rls-span = "=0.5.4"
serde_json = "1"
