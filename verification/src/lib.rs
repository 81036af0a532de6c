//! Reader for the IDX binary tensor container: a reserved zero field, a
//! scalar type tag, a dimension count, big-endian dimension sizes, and a
//! row-major payload of big-endian scalars.
//!
//! The reader works over in-memory bytes; opening files and every other kind
//! of real I/O belongs to the program around the library.

pub mod endian;
pub mod error;
pub mod geom;
pub mod idx;
pub mod image;
