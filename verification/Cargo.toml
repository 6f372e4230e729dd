[package]
name = "pomodoro"
version = "0.1.0"
edition = "2021"
publish = false

[dependencies]
chrono = "0.4"
clap = { version = "4", features = ["derive"] }
crossterm = "0.25"
rodio = "0.17"
tokio = { version = "1", features = ["macros", "rt-multi-thread", "time"] }
tui = "0.19"
