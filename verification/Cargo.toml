[package]
name = "optopodi"
version = "0.1.0"
edition = "2021"
publish = false

[dependencies]
anyhow = "1"
async-trait = "0.1"
clap = { version = "3", features = ["derive"] }
csv = "1"
env_logger = "0.8"
fehler = "1"
futures = "0.3"
graphql_client = "0.9"
log = "0.4"
octocrab = "0.9"
reqwest = { version = "0.11", features = ["json"] }
serde = { version = "1", features = ["derive"] }
serde_json = "1"
snafu = "0.6"
stable-eyre = "0.2"
tokio = { version = "1", features = ["full"] }
toml = "0.5"
yup-oauth2 = "5"
