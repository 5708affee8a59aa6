[package]
name = "wikigraph"
version = "0.1.0"
edition = "2021"
publish = false

[dependencies]
unicode-case-mapping = "*"
bzip2 = "*"
csv = "*"
parse_mediawiki_dump_reboot = "*"
rusqlite = { version = "*", features = ["bundled"] }
