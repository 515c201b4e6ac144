[package]
name = "three_ds_http"
version = "0.1.0"
edition = "2021"
publish = false

[dependencies]
http = "=1.5.0"
url = "=2.5.8"
minreq = "=2.14.1"
tokio = { version = "=1.54.1", features = ["rt"] }
futures = "=0.3.34"
bytes = "=1.12.1"
http-body-util = "=0.1.5"
tungstenite = "=0.30.0"
