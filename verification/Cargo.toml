[package]
name = "argparse_sh"
version = "0.1.0"
edition = "2021"
publish = false

[dependencies]
regex = "*"
termsize = "*"
textwrap = "*"
unicode-width = "*"
