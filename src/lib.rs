//! Volunteer-hours reports from a repository's history.
//!
//! A tracked file records a cumulative hours counter on its first line. Walking
//! the commits oldest first, each increase of the counter closes a work session
//! that collects the commit messages gathered since the previous one.

pub mod text;
pub mod hours;
pub mod numeral;
pub mod calendar;
pub mod report;
pub mod render;
pub mod repo;
pub mod laws;
