//! A ZIP container engine: it reads an archive's structure into an ordered
//! table of entries, lets the caller add, replace and remove entries, and
//! writes the archive back byte for byte. Every function is verified against
//! a mathematical model of the wire format.

pub mod cache;
pub mod crc32;
pub mod deflate;
pub mod directory;
pub mod eocd;
pub mod error;
pub mod extra;
pub mod layout;
pub mod le;
pub mod magic;
pub mod positions;
pub mod round_trip;
pub mod table;
pub mod text;
pub mod zip;
pub mod zip_file;
