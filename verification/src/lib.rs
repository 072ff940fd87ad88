//! Transparent mirror substitution for GitHub-family URLs: a remote-URL
//! model that classifies and rewrites repository URLs between canonical and
//! mirror hosts, an asset-URL rewriter over an allow-list of download hosts,
//! the decisions of a streaming download engine, and the two-phase
//! remote-swap protocol around a delegated version-control call.

pub mod command;
pub mod config;
pub mod download;
pub mod scan;
