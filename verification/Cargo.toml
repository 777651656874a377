[package]
name = "sonic_util"
version = "0.1.0"
edition = "2021"
publish = false

[dependencies]
pnet = "=0.35.0"
libc = "=0.2.190"
clap = { version = "=4.6.7", features = ["derive"] }
mio = { version = "=1.2.4", features = ["os-poll", "os-ext"] }
nix = { version = "=0.31.3", features = ["signal", "process"] }
log = "=0.4.34"
syslog = "=7.0.0"
redis = "=1.7.1"
regex = "*"
