//! Film sync between Trakt and Letterboxd: the verified core.
pub mod auth;
pub mod config;
pub mod constants;
pub mod letterboxd_export;
pub mod letterboxd_import;
pub mod matching;
pub mod rating;
pub mod report;
pub mod sync_from_letterboxd;
pub mod sync_state;
pub mod sync_to_letterboxd;
pub mod text;
pub mod trakt_client;
pub mod trakt_notes;
pub mod trakt_read;
pub mod trakt_write;
