[package]
name = "pg_split_dump"
version = "0.1.0"
edition = "2021"
publish = false

[dependencies]
getopts = "*"
postgres = "*"
similar = "*"
tar = "*"
