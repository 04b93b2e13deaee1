//! Timestamped, host-tagged snapshots of per-application save trees kept on
//! a remote store: how snapshots are named, which local entries they take,
//! how the catalog is listed and chosen from, and how a restore proceeds.
pub mod catalog;
pub mod cli;
pub mod filter;
pub mod layout;
pub mod naming;
pub mod restore;
pub mod text;
pub mod upload;
