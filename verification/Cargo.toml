[package]
name = "minishell"
version = "0.1.0"
edition = "2021"
publish = false

[dependencies]
chrono = "*"
dirs = "*"
fs-set-times = "*"
signal-hook = "*"
sysinfo = "*"
termion = "*"
users = "*"
