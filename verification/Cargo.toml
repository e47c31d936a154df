[package]
name = "epub"
version = "0.1.0"
edition = "2021"
publish = false

[dependencies]
byteorder = "1"
fatfs = "*"
log = "0.4"
miniz_oxide = "*"
RustyXML = "*"
