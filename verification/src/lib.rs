//! Reproducible deployment assembly for versioned module archives: a
//! tolerant version parser with a total order, upgrade resolution against
//! a package registry, checksum-validated archive acquisition with a
//! local cache, and a path-remapping archive transformer.
//!
//! The decisions live here, verified; the I/O around them — registry
//! requests, cache files, the output tree — hands in plain values and
//! carries out the planned actions.

pub mod fetch;
pub mod identity;
pub mod mapping;
pub mod resolver;
pub mod text;
pub mod transform;
pub mod version;
