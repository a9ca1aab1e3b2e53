[package]
name = "lexical_sort"
version = "0.3.1"
edition = "2021"
publish = false

[dependencies]
any_ascii = "0.1"
