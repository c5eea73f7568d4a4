//! Reporting library for an open-source organization: it models a local
//! relational store of members, pull requests and commits, ingests rows with
//! natural-key deduplication, aggregates time-bucketed statistics over the
//! store, and renders JSON and Markdown artifacts.
//!
//! All timestamps are fixed-width RFC-3339 strings compared lexicographically,
//! which coincides with chronological order. Date arguments are `YYYY-MM-DD`.

pub mod aggregate;
pub mod command;
pub mod dates;
pub mod digest;
pub mod model;
pub mod render;
pub mod strings;
pub mod summary;
