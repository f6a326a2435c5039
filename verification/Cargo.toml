[package]
name = "openiwan"
version = "0.1.0"
edition = "2021"
publish = false

[dependencies]
aes = "=0.9.4"
bytes = "1"
cipher = "=0.5.2"
clap = { version = "4", features = ["derive"] }
ctrlc = "=3.5.2"
fs2 = "=0.4.3"
futures = "0.3"
getrandom = "=0.4.3"
hickory-proto = "=0.26.3"
http-body-util = "0.1"
hyper = { version = "=1.12.0", default-features = false, features = ["client", "http1", "server"] }
hyper-util = { version = "0.1", default-features = false, features = ["client", "client-legacy", "http1", "tokio"] }
keyring = "=4.2.0"
libc = "0.2"
md-5 = "=0.11.0"
rpassword = "=7.5.4"
rustls = { version = "=0.23.46", default-features = false, features = ["ring", "std", "tls12"] }
rustls-native-certs = "0.8"
rustls-pemfile = "2"
serde = { version = "1", features = ["derive"] }
serde_json = "1"
sha2 = "=0.11.1"
socket2 = "=0.6.5"
tokio = { version = "1", features = ["io-util", "macros", "net", "rt-multi-thread", "sync", "time"] }
tokio-rustls = { version = "0.26", default-features = false, features = ["ring", "tls12"] }
tokio-smoltcp = "*"
tokio-util = "0.7"
toml = "=1.1.8"
tower-service = "0.3"
url = "=2.5.8"
