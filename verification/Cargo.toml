[package]
name = "audiowaveform"
version = "0.1.0"
edition = "2021"
publish = false

[dependencies]
hound = "3.5"
symphonia = { version = "0.5", features = ["all"] }
tempfile = "3"
clap = { version = "4", features = ["derive"] }

[dev-dependencies]
