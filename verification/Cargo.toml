[package]
name = "axiom_profiler"
version = "0.1.0"
edition = "2021"
publish = false

[dependencies]
petgraph = "0.6"
roaring = "0.10"
fxhash = "0.2"
typed-index-collections = "3"
gloo-console = "0.3"
yew = "0.21"
