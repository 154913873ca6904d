[package]
name = "haybale"
version = "0.7.1"
edition = "2021"
publish = false

[dependencies]
boolector = "=0.4.3"
llvm-ir = { version = "=0.9.0", features = ["llvm-14"] }
llvm-sys = { version = "140", features = ["prefer-dynamic"] }
z3 = "0.10"
inkwell = { version = "=0.2.0", features = ["llvm14-0"] }
cpp_demangle = "=0.3.5"
rustc-demangle = "=0.1.28"
either = "=1.19.0"
itertools = "=0.10.5"
log = "=0.4.35"
env_logger = "=0.9.3"
reduce = "=0.1.5"
rustversion = "=1.0.23"
