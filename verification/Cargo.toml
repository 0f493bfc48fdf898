[package]
name = "next_meeting"
version = "0.1.0"
edition = "2021"
publish = false

[dependencies]
chrono = { version = "=0.4.45", default-features = false, features = ["clock", "std"] }
i18n-embed = { version = "0.16", features = ["fluent-system", "desktop-requester"] }
libc = "0.2"
tokio = { version = "1", features = ["rt-multi-thread", "sync"] }
zbus = { version = "=5.19.0", default-features = false, features = ["tokio"] }
