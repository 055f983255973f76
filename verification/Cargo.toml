[package]
name = "mp4util"
version = "0.1.0"
edition = "2021"
publish = false

[dependencies]
shiguredo_mp4 = "*"
noargs = "*"
