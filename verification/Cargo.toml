[package]
name = "herosynth"
version = "0.1.0"
edition = "2021"
publish = false

[dependencies]
rosc = "0.1"
portaudio = "0.7"
portmidi = "0.2"
tokio-core = "0.1"
futures = "0.1"
