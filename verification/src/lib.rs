//! Verified core of the Spruce Grove desktop shell.
pub mod text;
pub mod ansi;
pub mod recordings;
pub mod clock;
pub mod disk;
pub mod crypto;
pub mod studio_auth;
pub mod json;
pub mod acp;
pub mod inspector;
pub mod ledger;
pub mod project;
pub mod shell;
pub mod audit;
pub mod subprocess;
