[package]
name = "quest_log"
version = "0.1.0"
edition = "2021"
publish = false

[dependencies]
anyhow = "1"
atty = "0.2"
env_logger = "0.9"
handlebars = "4"
log = "0.4"
nom = "7"
structopt = "0.3"
