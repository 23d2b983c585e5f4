[package]
name = "cookbook"
version = "0.1.0"
edition = "2021"
publish = false

[dependencies]
base64 = "0.21"
byteorder = "1"
chrono = "0.4"
clap = { version = "4", features = ["cargo"] }
crossbeam = "0.8"
crossbeam-channel = "0.5"
csv = "1"
data-encoding = "2"
env_logger = "0.10"
glob = "0.3"
lazy_static = "1"
log = "0.4"
mime = "0.3"
ndarray = "0.15"
num = "0.4"
num_cpus = "1"
percent-encoding = "2"
rand = "0.8"
rand_distr = "0.4"
rayon = "1"
regex = "1"
ring = "0.17"
semver = "1"
serde = { version = "1", features = ["derive"] }
serde_json = "1"
threadpool = "1"
toml = "0.5"
unicode-segmentation = "1"
url = "2"
walkdir = "2"
