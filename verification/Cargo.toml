[package]
name = "playlist_processor"
version = "0.1.0"
edition = "2021"
publish = false

[dependencies]
actix-rt = "2"
log = "0.4"
regex = "1"
unidecode = "0.3"
