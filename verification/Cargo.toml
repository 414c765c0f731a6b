[package]
name = "pomodoro_tui"
version = "0.1.0"
edition = "2021"
publish = false

[dependencies]
crossterm = "0.27"
dirs = "5"
discord-rich-presence = "0.2"
notify-rust = { version = "4", default-features = false, features = ["d"] }
ratatui = { version = "0.26", default-features = false, features = ["crossterm"] }
