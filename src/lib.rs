//! A durable table from short keys to URLs, and the request logic of a URL
//! shortener built on it.
//!
//! `store` holds the byte-oriented mapping table on top of a sled database;
//! `handlers` turns requests into single store operations and decides the
//! replies.
pub mod store;
pub mod handlers;
