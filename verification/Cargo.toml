[package]
name = "corpus_stats"
version = "0.1.0"
edition = "2021"
publish = false

[dependencies]
anyhow = "=1.0.104"
clap = { version = "=4.6.7", features = ["derive"] }
dashmap = "=6.2.1"
gethostname = "=1.1.0"
itertools = "=0.15.0"
kuchiki = "=0.8.1"
pollster = "=1.0.1"
punkt = "=1.0.5"
rayon = "=1.12.0"
regex = "=1.13.1"
serde_json = "=1.0.154"
textwrap = "=0.16.4"
tldextract = "=0.6.0"
xtra = { version = "=0.6.0", features = ["macros"] }
