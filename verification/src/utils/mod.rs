//! The configuration file, the credential file, and connection links.

pub mod config;
pub mod display;
pub mod entities;
pub mod keys;
