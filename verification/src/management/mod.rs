//! What the management surface sees of the queue: listings with filters
//! and pages, and records with their times as calendar dates.

pub mod list;
pub mod view;
