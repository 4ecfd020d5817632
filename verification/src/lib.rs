//! The core of an indexer and query server for a Bitcoin-like chain.
//!
//! Two parts, both free of threads, sockets and files, so that every step
//! can be stated and proved:
//!
//! - the bulk indexing of block files: `framer` recovers the frames of a
//!   file, `bulk` decodes the blocks, decides which of them are indexed and
//!   keeps the checkpoint, `hashlist` looks hashes up, `rows` orders the
//!   rows of a file by key;
//! - the Electrum RPC protocol: `rpc` holds the connection and the server
//!   as state machines, `methods` reads the parameters of each method,
//!   `reply` shapes what is sent, and `json`, `hexcode` and `text` are the
//!   boundary to the crates that parse and print.

pub mod bulk;
pub mod framer;
pub mod hashlist;
pub mod hexcode;
pub mod json;
pub mod methods;
pub mod reply;
pub mod rows;
pub mod rpc;
pub mod text;
