//! Core logic of the svoote live-poll service: polls, slides, participants,
//! answer tallies, the live-poll registry and the helpers the web layer needs.

pub mod app_error;
pub mod config;
pub mod free_text;
pub mod text;
pub mod session_id;
pub mod language;
pub mod auth_token;
pub mod illustrations;
pub mod landing_page;
pub mod play;
pub mod slide;
pub mod tally;
pub mod polls;
pub mod live_poll;
pub mod live_poll_store;
pub mod host;
pub mod static_file;
pub mod word_cloud;
