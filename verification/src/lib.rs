//! An in-memory, multi-model key/value store speaking a RESP-compatible wire
//! protocol: a verified frame codec, tokenizer and command compiler, a typed
//! data engine (strings, integers, JSON documents, geospatial points) with
//! TTL bookkeeping, and a replicated-log storage model whose apply step is a
//! pure function of the committed log.

pub mod num;
pub mod text;
pub mod types;
pub mod utils;
pub mod encode;
pub mod decode;
pub mod laws;
pub mod parser;
pub mod tokenizer;
pub mod util;
pub mod unit_conv;
pub mod printer;
pub mod json;
pub mod error;
pub mod geo;
pub mod db;
pub mod command;
pub mod analyzer;
pub mod storage;
pub mod config;
