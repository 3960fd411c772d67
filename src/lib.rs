//! How many minutes until a bus arrives: reading the ETA out of a tracker
//! page, a one-time crawl-permission check, a short-lived cache, and the
//! steps of a query that tie them together.
pub mod cache;
pub mod extract;
pub mod gate;
pub mod query;
