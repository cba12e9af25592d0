[package]
name = "de"
version = "0.1.0"
edition = "2021"
publish = false

[dependencies]
anyhow = "=1.0.104"
clap = { version = "=4.6.7", features = ["derive"] }
clap-verbosity-flag = "=3.0.4"
env_logger = "=0.11.11"
exitcode = "=1.1.2"
hdt = { version = "=0.7.3", features = ["cache", "nt"] }
http = "=1.5.0"
log = "=0.4.34"
oxhttp = "=0.3.3"
oxiri = "=0.3.1"
oxrdf = "=0.3.4"
oxrdfio = "=0.2.6"
rand = "=0.10.3"
sparesults = "=0.3.4"
spareval = "=0.2.7"
spargebra = "=0.4.7"
tempfile = "=3.27.0"
tokio = { version = "=1.53.2", features = ["macros", "rt-multi-thread"] }
url = "=2.5.8"
