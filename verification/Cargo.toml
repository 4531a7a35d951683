[package]
name = "branch_dawg"
version = "0.1.0"
edition = "2021"
publish = false

[dependencies]
git2 = "*"
clap = { version = "*", features = ["derive"] }
termcolor = "*"
thiserror = "*"
