//! Aggregation and indexing of job postings gathered from several listing sites.

mod clock;
pub mod index;
pub mod order;
mod paint;
pub mod repl;
pub mod repository;
pub mod scraper;
pub mod site;
pub mod text;
