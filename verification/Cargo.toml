[package]
name = "serde_ini_spanned"
version = "0.1.0"
edition = "2021"
publish = false

[dependencies]
aho-corasick = "1"
indexmap = "2"
codespan-reporting = "*"
thiserror = "2"
