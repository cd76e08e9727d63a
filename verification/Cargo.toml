[package]
name = "keyframe_anim"
version = "0.1.0"
edition = "2021"

[dependencies]
bspline = "*"
