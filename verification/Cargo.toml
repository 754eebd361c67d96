[package]
name = "podbatch"
version = "0.1.0"
edition = "2021"
publish = false

[dependencies]
roxmltree = "=0.21.2"
serde_json = "=1.0.154"
id3 = "=1.17.2"
dirs = "=7.0.0"
futures-util = "=0.3.34"
tokio = { version = "=1.54.1", features = ["rt-multi-thread", "macros", "sync", "fs", "io-util", "time"] }
reqwest = { version = "=0.13.5", default-features = false, features = ["rustls-no-provider", "stream", "gzip"] }
rustls = { version = "=0.23.46", default-features = false, features = ["ring", "std", "tls12"] }
rfd = { version = "=0.17.2", default-features = false, features = ["xdg-portal"] }
rodio = { version = "=0.23.0", default-features = false, features = ["playback", "wav"] }
eframe = { version = "=0.37.0", default-features = false, features = ["default_fonts", "glow", "x11"] }
egui = "=0.37.0"
