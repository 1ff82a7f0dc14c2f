[package]
name = "roboprotocol"
version = "0.1.0"
edition = "2021"
publish = false

[dependencies]
flatbuffers = "=2.1.2"
anyhow = "=1.0.104"
thiserror = "=1.0.69"
serde = { version = "=1.0.229", features = ["derive"] }
serde_json = "=1.0.154"
tracing = "=0.1.44"
tracing-subscriber = { version = "=0.3.23", default-features = false, features = ["fmt"] }
tokio = { version = "=1.54.1", features = ["rt-multi-thread", "macros", "net", "time", "sync", "process", "io-util", "signal"] }
tokio-stream = "=0.1.19"
futures-util = { version = "=0.3.34", default-features = false, features = ["sink"] }
quiche = "=0.22.0"
rand = "=0.8.8"
rcgen = { version = "=0.13.2", default-features = false, features = ["pem", "ring"] }
crossterm = { version = "=0.28.1", default-features = false, features = ["event-stream", "events"] }
ratatui = { version = "=0.28.1", default-features = false, features = ["crossterm"] }
gilrs = "=0.11.2"
openh264 = "=0.6.6"
image = { version = "=0.25.10", default-features = false, features = ["jpeg", "png"] }
axum = { version = "=0.7.9", default-features = false, features = ["ws", "tokio", "http1"] }
rustls = { version = "=0.23.46", default-features = false, features = ["ring", "std", "tls12"] }
axum-server = { version = "=0.7.3", default-features = false, features = ["tls-rustls-no-provider"] }
tower-http = { version = "=0.6.11", default-features = false, features = ["fs"] }
zenoh = { version = "=1.10.2", default-features = false, features = ["transport_tcp"] }
