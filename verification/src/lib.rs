//! A verified core of the Rostra news bots and client database: article
//! deduplication, feed parsing helpers, post formatting, and the pure
//! decisions of the event database.
pub mod assets;
pub mod bot;
pub mod cli;
pub mod db;
pub mod hn_bot;
pub mod kv;
pub mod num;
pub mod text;
