//! A small archive format for named assets: a header, the assets' bytes, a
//! table of contents and a table of names.

pub mod asset;
pub mod builder;
pub mod format;
pub mod reader;

pub use asset::AssetEntry;
pub use builder::PakBuilder;
pub use format::constants::{
    FLAG_COMPRESSED, HEADER_SIZE, MAX_NAME_LENGTH, PAK_MAGIC, PAK_VERSION, TOC_ENTRY_SIZE,
};
pub use format::error::PakError;
pub use format::hash::hash_name;
pub use format::header::PakHeader;
pub use format::toc::{AssetType, TocEntry};
pub use reader::{AssetInfo, PakReader};
