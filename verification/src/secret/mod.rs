//! Credentials that are fetched from a provider and published for other programs.
pub mod bundle;
pub mod options;
pub mod provider;
