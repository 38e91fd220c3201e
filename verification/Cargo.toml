[package]
name = "fix_stacks"
version = "0.1.0"
edition = "2021"
publish = false

[dependencies]
goblin = "*"
regex = "*"
serde_json = "*"
symbolic-common = "*"
symbolic-debuginfo = "*"
symbolic-demangle = "*"
