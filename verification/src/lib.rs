//! A verified calendar-ingestion engine: it parses the iCalendar text format
//! into typed events, selects and orders the events that start at or after a
//! reference time, and renders start times for display. Locator normalization
//! and response classification for the fetch step are verified here as well;
//! the network call itself, configuration loading and the posting side live
//! in the surrounding application.

pub mod config;
pub mod event;
pub mod fetch;
pub mod ical;
pub mod select;
pub mod text;
pub mod time;
pub mod tz;
