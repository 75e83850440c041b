[package]
name = "fastq_quality"
version = "0.1.0"
edition = "2021"
publish = false

[dependencies]
flate2 = "1"
structopt = "0.3"
