[package]
name = "audio_mixer"
version = "0.1.0"
edition = "2021"
publish = false

[dependencies]
atomic_float = "0.1"
cpal = "0.14"
hound = "3.5"
lewton = "0.10"
