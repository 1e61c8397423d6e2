//! A password-protected store of credential records, kept in one encrypted file.
//!
//! The records are serialized, encrypted under a key that scrypt derives from the
//! password, and framed in a container file; saving replaces that file in one rename.

pub mod commands;
pub mod container;
pub mod crypto;
pub mod error;
pub mod keyorder;
pub mod location;
pub mod store;
pub mod strmap;
pub mod time;
