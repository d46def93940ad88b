[package]
name = "italiansuperwhisper"
version = "0.1.0"
edition = "2021"
publish = false

[dependencies]
regex = "1"
uuid = { version = "1", features = ["v4"] }
rusqlite = { version = "*", features = ["bundled"] }
reqwest = { version = "0.12", features = ["blocking"] }
arboard = "3"
cpal = "*"
hound = "3"
rubato = "0.16"
encoding_rs = "0.8"
serde = { version = "1", features = ["derive"] }
serde_json = "1"
whisper-rs = "0.16"
llama-cpp-2 = "*"
