//! Decoder for `DI`-tagged separate debug info files.
//!
//! The decoder walks the separate-debug-info header, the section-header
//! array and the debug-directory array of such a file, and for every
//! directory entry tagged as COFF debug data it reads the embedded COFF
//! symbol table, line-number table and string table.  It produces three
//! tables keyed by relative virtual address (RVA): function names, global
//! names, and source line attributions.
//!
//! The decoder works on a plain byte slice; obtaining the bytes (opening a
//! file, extracting a cabinet archive) and presenting the tables is left to
//! the caller.

pub mod bytes;
pub mod decode;
pub mod errors;
pub mod laws;
pub mod model;
pub mod tables;
pub mod text;

pub use decode::DbgFile;
pub use decode::DebugType;
pub use errors::Error;
pub use tables::RvaMap;
