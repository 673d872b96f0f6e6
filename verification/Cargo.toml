[package]
name = "tileworld"
version = "0.1.0"
edition = "2021"
publish = false

[dependencies]
rand = "0.8"
rand_xorshift = "0.3"
noise = "0.8"
heck = "0.4"
fxhash = "0.2"
puffin_egui = "0.24"
tracing = "0.1"
tracing-subscriber = "0.3"
anyhow = "1"
quote = "1"
syn = "2"
prettyplease = "0.2"
tiled = "0.11"
