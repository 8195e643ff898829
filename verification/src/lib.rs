//! Verified core of the Tab5 stock quote relay: watchlist parsing and
//! validation, symbol normalisation, quote freshness, the quote store that
//! the HTTP/WebSocket server shares between requests, and the access and
//! supervision decisions of the server.

pub mod access;
pub mod clock;
pub mod config;
pub mod error;
pub mod models;
pub mod number;
pub mod order;
pub mod providers;
pub mod sorting;
pub mod store;
pub mod stream;
pub mod supervisor;
pub mod text;
