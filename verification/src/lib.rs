//! An embedded key-value store: databases hold tables, tables hold typed rows.
//!
//! Requests arrive as framed messages, wait in a transaction pool and are
//! carried out against a size-bounded cache that writes through to storage.

pub mod cache;
pub mod config;
pub mod db;
pub mod http;
pub mod record;
pub mod seqs;
pub mod text;
pub mod tx_pool;
pub mod types;
