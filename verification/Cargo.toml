[package]
name = "chat_commands"
version = "0.1.0"
edition = "2021"

[dependencies]
linefeed = "*"
