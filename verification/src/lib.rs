//! Market news analysis: the verified core of feed collection, entry
//! selection, date building and tool bookkeeping.
pub mod cli;
pub mod config;
pub mod extractor;
pub mod fetcher;
pub mod finance;
pub mod model;
pub mod rss;
pub mod utils;
