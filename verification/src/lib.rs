//! Relational assembly of a driving dataset into per-scene detection timelines.
//!
//! The tables of a dataset refer to each other by token. This library indexes
//! them, walks each scene's linked samples, and names for every sample the
//! camera records and the labelled objects to project onto them. Poses, boxes
//! and the projection itself are arithmetic in floating point and stay with
//! the caller; the library hands out positions in the tables.
pub mod assemble;
pub mod chain;
pub mod channel;
pub mod config;
pub mod corners;
pub mod index;
pub mod intrinsic;
pub mod records;
pub mod schema;
