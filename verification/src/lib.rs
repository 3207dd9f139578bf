//! Planning and bookkeeping for archiving a downloaded creator tree.
//!
//! The crate holds the rules of the archive pipeline: which creators are
//! taken, how a creator's directory is split into posts, which requests are
//! put to the archive store, and how the file transfers of a post are
//! admitted and counted. Reading directories, talking to the store and moving
//! files are left to the caller, who hands over what was read and reports
//! back what happened.

pub mod config;
pub mod creator;
pub mod post;
pub mod store;
pub mod text;
pub mod tree;
