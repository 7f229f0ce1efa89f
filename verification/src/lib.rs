//! Reader for FF archives: a flat table of file entries followed by a payload
//! region, listed or extracted from an in-memory byte source.

pub mod archive;
pub mod error;
pub mod extract;
pub mod list;
pub mod source;
