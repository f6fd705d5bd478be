[package]
name = "disasm"
version = "0.1.0"
edition = "2021"
publish = false

[dependencies]
goblin = "=0.10.7"
gimli = "=0.34.0"
memmap = "=0.7.0"
rustc-demangle = "=0.1.28"
cpp_demangle = "=0.5.1"
pdb = "=0.8.0"
anyhow = "=1.0.104"
log = "=0.4.34"
termcolor = "=1.4.1"
clap = { version = "=4.6.7", features = ["derive"] }
cargo_metadata = "=0.23.1"
atty = "=0.2.14"
once_cell = "=1.21.4"
