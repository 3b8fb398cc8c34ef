//! Rules of a small dynamic-DNS updater: profile tokens, provider parameters,
//! and the fallback chain that discovers the caller's public address.

pub mod text;
pub mod error;
pub mod profile;
pub mod discovery;
pub mod settings;
pub mod driver;
