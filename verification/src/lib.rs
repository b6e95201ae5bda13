//! Trashcal: a verified waste-collection schedule engine.
//!
//! Given raw (collection kind, date) observations scraped from a municipal
//! page, the library parses them, normalizes them into a canonical weekly
//! schedule (inferring the pickups that the page leaves implicit), computes a
//! daylight-saving-safe cache-expiration instant for the schedule, and lays
//! the schedule out as displayable calendar entries.

pub mod date;
pub mod entries;
pub mod error;
pub mod ident;
pub mod normalize;
pub mod pickup;
pub mod pickup_calendar;
pub mod text;
pub mod tz;
