//! Collects the autonomous systems of Chinese networks from public listing
//! pages, recognises the ISP that operates each, and serves the list from a
//! database table kept behind a key-value cache.
//!
//! - [`crawler`] reads a listing page into rows, one per AS number.
//! - [`isp`] and [`model`] hold the rows and the ISPs.
//! - [`pattern`] runs the regular expressions the crawler is written with.
//! - [`cache`] decides each step of a read through the cache.
//! - [`upsert`] plans the writes that store crawled rows and drop rows by age.
//! - [`d1`] holds the statements of the service that writes ASNs to D1.
//! - [`response`] and [`error`] shape the HTTP answers.
//! - [`log`] builds the line logged per request.
use vstd::prelude::*;

pub mod cache;
pub mod crawler;
pub mod d1;
pub mod error;
pub mod isp;
pub mod log;
pub mod model;
pub mod pattern;
pub mod response;
pub mod upsert;

verus! {

} // verus!
