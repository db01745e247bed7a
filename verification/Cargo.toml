[package]
name = "inline_c"
version = "0.1.0"
edition = "2021"
publish = false

[dependencies]
assert_cmd = "2"
cc = "1"
predicates = "*"
proc-macro2 = { version = "1", features = ["span-locations"] }
quote = "1"
target-lexicon = "*"
tempfile = "3"

[dev-dependencies]
regex = "1"
