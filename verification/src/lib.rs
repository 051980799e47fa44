//! Archive files presented as filesystems: the session engine.
//!
//! An archive is decoded into an ordered sequence of entries, materialised in a
//! memory filesystem, mutated through ordinary filesystem operations and encoded
//! again on close. This crate holds the decisions of that lifecycle: canonical
//! paths, the insertion-ordered path set, the per-format entry policy, and the
//! plans that open and close hand to the surrounding program.

pub mod ar_codec;
pub mod close;
pub mod cpio_codec;
pub mod entry;
pub mod kept;
pub mod laws;
pub mod open;
pub mod ordered;
pub mod path;
pub mod session;
pub mod tempdir;
