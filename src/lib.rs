//! Content-addressed bills of materials.
//!
//! Every regular file of an artifact or a directory tree is named by its
//! gitoid (a git blob hash), recorded in a sharded object store, and listed
//! in a manifest per hash algorithm. The manifest is then itself hashed and
//! stored, so that one identifier names the whole tree.
//!
//! The library decides what is hashed, where it is stored and what is
//! written; reading and writing files is left to its caller.

pub mod algorithm;
pub mod bytes;
pub mod content_id;
pub mod manifest;
pub mod order;
pub mod pipeline;
pub mod store;
