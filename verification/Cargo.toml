[package]
name = "rusty_minesweeper"
version = "0.1.0"
edition = "2021"
publish = false

[dependencies]
fastrand = "2"
relm4 = "*"
thiserror = "*"
