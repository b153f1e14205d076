//! Verified core of a personal contact-lookup tool.
//!
//! Contacts live one-per-file in a directory; a flat index file caches the
//! `email`/`fullname`/`path` triple of every contact so that a free-text
//! fragment can be resolved without re-scanning the directory.  This crate
//! holds the index subsystem: the contact-file codec, the index codec, the
//! index builder, the query matcher and the query formatters, each with a
//! proved contract.  All file and process I/O stays outside.

pub mod builder;
pub mod contact_codec;
pub mod errors;
pub mod format;
pub mod index_codec;
pub mod matcher;
pub mod record;
pub mod text;
