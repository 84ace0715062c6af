[package]
name = "todo_issue"
version = "0.1.0"
edition = "2021"
publish = false

[dependencies]
glob = "0.3"
clap = "2"
console = "0.9"
dialoguer = "0.5"
reqwest = "0.9"
rpassword = "4"
