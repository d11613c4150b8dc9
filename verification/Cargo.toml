[package]
name = "firmups"
version = "0.1.0"
edition = "2021"
publish = false

[dependencies]
aes-gcm = "=0.11.1"
# ascon-aead128 0.1.1 asks for "0.5.0-rc.0" of ascon and still uses that
# release candidate's State API; the resolver would otherwise pick the 0.5.0
# final, whose State type changed, and the build would fail.
ascon = "=0.5.0-rc.0"
ascon-aead128 = { version = "=0.1.1", default-features = false, features = ["alloc"] }
getrandom = "=0.4.3"
sha2 = "=0.11.0"
uuid = { version = "=1.27.0", features = ["v4"] }
zeroize = "=1.9.1"
