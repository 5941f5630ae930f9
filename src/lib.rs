//! Keeps a set of locally installed tools up to date from their hosting
//! service's latest releases: the registry format, the version rule, asset
//! selection, request building and safe archive extraction.
pub mod arch;
pub mod cli;
pub mod error;
pub mod extract;
pub mod layout;
pub mod registry;
pub mod release;
pub mod text;
pub mod update;
pub mod version;
