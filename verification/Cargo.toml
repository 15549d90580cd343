[package]
name = "dungeon_crawler"
version = "0.1.0"
edition = "2021"
publish = false

[dependencies]
bracket-lib = "0.8"
bracket-random = "0.8"
bracket-geometry = "0.8"
legion = "0.3"
