//! The pure decisions of the client event database: what processing an
//! event or its content changes, scores and rankings, pagination, node
//! announcements, reception order and the materialization feed. The tables
//! are held here as plain values; storing them is done by the caller.
pub mod keys;
pub mod social;
pub mod content;
pub mod news;
pub mod paginate;
pub mod migration;
pub mod nodes;
pub mod materialization;
pub mod records;
pub mod extension;
pub mod ranges;
pub mod reception;
