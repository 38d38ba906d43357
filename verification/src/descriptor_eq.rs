//! Canonicalisation and comparison of compiled protobuf descriptor sets.
//!
//! Two schema trees describe the same API when, after dropping source
//! locations and mapping the explicitly named root file onto one common
//! name, their descriptor sets are equal file by file.

pub mod text;
pub mod model;
pub mod canonical;
pub mod outside;
pub mod compare;
pub mod report;
pub mod args;
pub mod laws;
