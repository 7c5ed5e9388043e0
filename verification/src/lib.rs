pub mod cache;
pub mod chunker;
pub mod codec;
pub mod config;
pub mod db;
pub mod embedding;
pub mod error;
pub mod eval;
pub mod graph;
pub mod hashing;
pub mod ingest;
pub mod metadata;
pub mod parsers;
pub mod protocol;
pub mod roots;
pub mod sanitize;
pub mod search;
pub mod store;
pub mod text;
pub mod watch;

pub use error::RagmcpError;
