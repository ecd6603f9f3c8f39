//! A single-file record store: fixed-width rows appended to a flat binary
//! file through a cache of pages, and replayed by a sequential scan.

pub mod ascii;
pub mod buffer;
pub mod constants;
pub mod session;
pub mod table;
pub mod vm;
