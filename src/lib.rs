//! Scrapes a ten-day forecast page and keeps a date-keyed history of the
//! predicted temperatures, so that predictions can later be compared with
//! what actually happened.

pub mod date;
pub mod error;
pub mod label;
pub mod scrape;
pub mod store;
