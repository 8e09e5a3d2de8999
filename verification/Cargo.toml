[package]
name = "twixelwall"
version = "0.1.0"
edition = "2021"
publish = false

[dependencies]
async-trait = "=0.1.92"
chrono = "=0.4.45"
image = { version = "=0.24.9", default-features = false, features = ["png"] }
log = "=0.4.34"
oauth2 = "=4.4.2"
serde = { version = "=1.0.229", features = ["derive"] }
simple_logger = "=1.16.0"
structopt = "=0.3.26"
tempfile = "=3.27.0"
tokio = { version = "=1.54.1", features = ["full"] }
toml = "=0.5.11"
twitch_api2 = "=0.6.1"
twitch-irc = { version = "=2.2.0", features = ["refreshing-token"] }
twitch_oauth2 = "=0.5.2"
twitch_oauth2_auth_flow = { version = "=0.0.1-alpha", default-features = false, features = ["reqwest_client"] }
