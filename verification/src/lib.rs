//! Discovery and partial-content fingerprinting for large file collections.
//!
//! Two subsystems: a directory-discovery filter (extension matching,
//! hidden-directory pruning, symlink-cycle bookkeeping) and a partial
//! hasher that turns file contents into a fixed-format fingerprint
//! string. Directory traversal and file reads are left to the caller;
//! every decision and every byte of the fingerprint format is verified
//! here.

pub mod discovery;
pub mod hasher;
pub mod progress;
