//! Verified core of a personal data-management backend's backup pipeline.
//!
//! The library models the data directory as a set of named byte files,
//! serializes it into a portable tar archive, restores such archives while
//! shielding a fixed set of protected entries, and sequences the destructive
//! steps of a restore behind a validated state machine.

pub mod archive;
pub mod auth;
pub mod bytestr;
pub mod dirstate;
pub mod errors;
pub mod export;
pub mod gz;
pub mod hash;
pub mod octal;
pub mod orchestrator;
pub mod paths;
pub mod pipe;
pub mod protect;
pub mod response;
pub mod restore;
pub mod theater;
pub mod tokens;
pub mod versions;
