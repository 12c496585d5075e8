//! The layout of an archive: constants, header, table of contents, name
//! hash and errors.

pub mod constants;
pub mod error;
pub mod hash;
pub mod header;
pub mod toc;

pub use constants::{
    FLAG_COMPRESSED, HEADER_SIZE, MAX_NAME_LENGTH, PAK_MAGIC, PAK_VERSION, TOC_ENTRY_SIZE,
};
pub use error::PakError;
pub use hash::hash_name;
pub use header::PakHeader;
pub use toc::{AssetType, TocEntry};
