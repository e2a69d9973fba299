[package]
name = "dirble"
version = "0.1.0"
edition = "2021"
publish = false

[dependencies]
colored = "*"
ctrlc = "*"
curl = "*"
log = "*"
percent-encoding = "*"
serde = "*"
serde_json = "*"
simple_xml_serialize = "*"
simple_xml_serialize_macro = "*"
simplelog = "*"
time = { version = "*", features = ["macros"] }
url = "*"
