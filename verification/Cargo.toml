[package]
name = "anytaggy"
version = "0.1.0"
edition = "2021"
publish = false

[dependencies]
rusqlite = { version = "*", features = ["bundled"] }
rusqlite_migration = "*"
sha2 = "*"
clap = { version = "*", features = ["derive"] }
lets_find_up = "*"
