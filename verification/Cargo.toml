[package]
name = "audio_timeline"
version = "0.1.0"
edition = "2021"
publish = false

[dependencies]
mumuse = "*"
hound = "*"
calamine = "*"
