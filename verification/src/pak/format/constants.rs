use vstd::prelude::*;

verus! {

/// The magic tag at the start of an archive, the bytes of `PAK` and a NUL.
pub const PAK_MAGIC: [u8; 4] = [0x50, 0x41, 0x4B, 0];

/// The version of the format.
pub const PAK_VERSION: u32 = 1;

/// Number of bytes of the header.
pub const HEADER_SIZE: usize = 32;

/// Number of bytes of one entry of the table of contents.
pub const TOC_ENTRY_SIZE: usize = 48;

/// The flag of an entry whose bytes are compressed.
pub const FLAG_COMPRESSED: u32 = 1;

/// The longest name that an archive is meant to hold, in bytes.
pub const MAX_NAME_LENGTH: usize = 256;

} // verus!
