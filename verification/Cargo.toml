[package]
name = "dashboard"
version = "0.1.0"
edition = "2021"
publish = false

[dependencies]
serde_json = "=1.0.151"
natord = "=1.0.9"
uuid = { version = "=1.27.0", features = ["v4"] }
redis = "=1.7.1"
ws = "=0.9.2"
iron = "=0.6.1"
hyper = "=0.10.16"
router = "=0.6.0"
mount = "=0.4.0"
staticfile = "=0.5.0"
persistent = "=0.4.0"
bodyparser = "=0.8.0"
params = "=0.8.0"
handlebars-iron = "=0.29.0"
dotenv = "=0.15.0"
serde = { version = "1", features = ["derive"] }
