[package]
name = "flow_aggregator"
version = "0.1.0"
edition = "2021"
publish = false

[dependencies]
clap = { version = "=4.6.7", features = ["derive"] }
neo4rs = "=0.8.0"
netflow_parser = { version = "=1.0.6", features = ["netflow_common"] }
pcap-file = "=2.0.0"
tokio = { version = "=1.54.1", features = ["full"] }
