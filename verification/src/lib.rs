//! Codec for the FAR container format: a flat archive made of a fixed
//! header, a manifest of file records and the files' raw bytes.

pub mod builder;
pub mod format;
pub mod laws;
pub mod model;
pub mod reader;
pub mod text;
