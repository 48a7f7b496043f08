//! The news bot: articles, deduplication, scraping helpers, post formatting
//! and the publishing queue.
pub mod cycle;
pub mod database;
pub mod pages;
pub mod publisher;
pub mod dedup;
pub mod scraper;
pub mod tables;
