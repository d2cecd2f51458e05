//! LIVEN: an embedded stream database. This crate holds its verified core:
//! the pipeline query language, the on-disk frame format, the wire framing,
//! stream keys, configuration rules and the security helpers.
pub mod text;
pub mod error;
pub mod storage;
pub mod types;
pub mod sysinfo;
pub mod security;
pub mod config;
pub mod parser;
pub mod query_parser;
pub mod codec;
pub mod query;
pub mod transfer;
pub mod executor;
pub mod display;
pub mod explain;
pub mod mutation;
pub mod window;
pub mod shell;
pub mod card;
pub mod cli;
pub mod access;
pub mod client;
pub mod json_doc;
pub mod filter;
pub mod join;
pub mod sequence;
pub mod group;
