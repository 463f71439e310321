//! A URL shortener: a key-value store that hands out short random keys for
//! stored URLs, an append-only log format that makes the store durable, and
//! the request handling that sits on top of the store.
pub mod handlers;
pub mod storage;
