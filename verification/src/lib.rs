//! Verified core of a multi-platform video download and search engine.
//!
//! The library classifies URLs by platform, normalizes them, validates
//! them, parses the metadata output of the external download tool, plans
//! and merges multi-platform searches, and keeps a registry of download
//! jobs. All of it is specified and verified; subprocess and network
//! plumbing lives outside the library.

pub mod downloader;
pub mod error;
pub mod jsonval;
pub mod metadata;
pub mod queue;
pub mod rutube;
pub mod sanitize;
pub mod search;
pub mod text;
