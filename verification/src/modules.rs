//! One module for each source of records.

pub mod crawl;
pub mod ebay;
pub mod passmark;
pub mod rdap;
