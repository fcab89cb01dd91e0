//! Extracts article URLs from sitemap text, plans rate-limited fetches,
//! strips markup tags from article bodies, and collects the successfully
//! fetched articles in order.

pub mod article;
pub mod chars;
pub mod clean;
pub mod config;
pub mod extract;
pub mod fetch;
pub mod json;
