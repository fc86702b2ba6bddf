[package]
name = "mqttc"
version = "0.1.0"
edition = "2021"
publish = false

[dependencies]
mqtt-protocol = "*"
rand = "*"
