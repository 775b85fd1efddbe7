[package]
name = "keri_git"
version = "0.1.0"
edition = "2021"
publish = false

[dependencies]
serde_json = "=1.0.151"
keri = "=0.8.2"
git2 = "=0.21.0"
ciborium = "=0.2.2"
thiserror = "=2.0.21"
git-ref-format = "=0.7.0"
rmp = "=0.8.10"
