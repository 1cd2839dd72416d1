//! A verified core for a local video-course organizer.
//!
//! The library turns a directory listing into an ordered course structure
//! (modules of videos), maintains a persistent store of courses with
//! merge-on-rescan semantics, and plans HTTP-style byte-range responses
//! for streaming video files.
pub mod model;
pub mod names;
pub mod range;
pub mod repo;
pub mod scan;
