//! Importer of job postings from an applicant-tracking XML feed.
//!
//! The library turns the feed's XML into one flat key/value map per job
//! posting, and a map into a job document ready to be stored.

pub mod text;
pub mod strmap;
pub mod config;
pub mod html;
pub mod job;
pub mod patterns;
pub mod read;
pub mod xml;
