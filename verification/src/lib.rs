//! The core of a decentralized package-metadata distribution system:
//! maintainers publish signed package descriptors to an append-only
//! ledger; clients subscribe, verify each descriptor's signature against
//! the embedded maintainer key, and keep a local mirror keyed by ledger
//! label, package name, version and maintainer.
//!
//! The crate holds the package object model and its two codecs (the
//! length-prefixed wire format of the ledger, in [`wire`], and the tagged
//! JSON field format for external tooling, in [`json`]), Ed25519 signing
//! over the canonical digest in [`signatures`], the local mirror in
//! [`repositories`], and the synchronization engine in [`services`].
//! Transport, key files and the JSON text syntax live with the caller.

pub mod archive_url;
pub mod config;
pub mod documents;
pub mod errors;
pub mod hexutil;
pub mod json;
pub mod numtext;
pub mod package;
pub mod package_integrity;
pub mod package_status;
pub mod repositories;
pub mod services;
pub mod signatures;
pub mod text;
pub mod wire;
