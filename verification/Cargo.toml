[package]
name = "twenty48"
version = "0.1.0"
edition = "2021"
publish = false

[dependencies]
rand = "=0.8.8"
termint = "=0.4.2"
crossterm = "=0.29.0"
