[package]
name = "tetris"
version = "0.1.0"
edition = "2021"
publish = false

[dependencies]
console-input = "=0.2.0"
crossterm = "=0.28.1"
gemini-engine = "=1.2.1"
rand = "=0.8.8"
rodio = "0.20"
