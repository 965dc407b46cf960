//! Core of a desktop widget daemon: a verified reactive state and lifecycle
//! coordinator.  It keeps three collections — named variables, open window
//! instances, and active producer subscriptions — consistent while a single
//! dispatcher serializes all mutating commands.

pub mod smap;
pub mod value;
pub mod error;
pub mod config;
pub mod eww_state;
pub mod app;
pub mod laws;
