use super::constants::{FLAG_COMPRESSED, TOC_ENTRY_SIZE};
use super::error::PakError;
use super::hash::{fnv1a, hash_name};
use crate::endian::{
    push_u32_le, push_u64_le, read_u32_le, read_u64_le, u32_le_at, u32_le_bytes, u64_le_at,
    u64_le_bytes,
};
use vstd::prelude::*;
use vstd::string::StringSliceAdditionalSpecFns;

verus! {

/// One entry of the table of contents, 48 bytes when written out.
#[derive(Clone, Copy, Debug)]
pub struct TocEntry {
    pub name_hash: u64,
    pub offset: u64,
    pub size: u64,
    pub compressed_size: u64,
    pub flags: u32,
    pub type_tag: u32,
    /// Eight bytes that fill the entry up to its 48; zero in every entry
    /// that this crate makes.
    pub reserved: u64,
}

/// What kind of asset an entry holds.
#[derive(Debug, Clone, Copy, PartialEq, Eq, Structural)]
pub enum AssetType {
    Unknown,
    Texture,
    Mesh,
    Audio,
    Script,
    Data,
}

impl AssetType {
    /// The number that stands for the kind in an entry.
    pub open spec fn spec_tag(self) -> u32 {
        match self {
            AssetType::Unknown => 0,
            AssetType::Texture => 1,
            AssetType::Mesh => 2,
            AssetType::Audio => 3,
            AssetType::Script => 4,
            AssetType::Data => 5,
        }
    }

    /// The kind that a number stands for; `Unknown` for every number
    /// without a kind.
    pub open spec fn of_tag(val: u32) -> AssetType {
        if val == 1 {
            AssetType::Texture
        } else if val == 2 {
            AssetType::Mesh
        } else if val == 3 {
            AssetType::Audio
        } else if val == 4 {
            AssetType::Script
        } else if val == 5 {
            AssetType::Data
        } else {
            AssetType::Unknown
        }
    }

    /// Returns the number that stands for the kind in an entry.
    pub fn tag(self) -> (r: u32)
        ensures
            r == self.spec_tag(),
    {
        match self {
            AssetType::Unknown => 0,
            AssetType::Texture => 1,
            AssetType::Mesh => 2,
            AssetType::Audio => 3,
            AssetType::Script => 4,
            AssetType::Data => 5,
        }
    }
}

impl From<u32> for AssetType {
    fn from(val: u32) -> (r: AssetType)
        ensures
            r == AssetType::of_tag(val),
    {
        if val == 1 {
            AssetType::Texture
        } else if val == 2 {
            AssetType::Mesh
        } else if val == 3 {
            AssetType::Audio
        } else if val == 4 {
            AssetType::Script
        } else if val == 5 {
            AssetType::Data
        } else {
            AssetType::Unknown
        }
    }
}

impl vstd::std_specs::convert::FromSpecImpl<u32> for AssetType {
    open spec fn obeys_from_spec() -> bool {
        true
    }

    open spec fn from_spec(val: u32) -> AssetType {
        AssetType::of_tag(val)
    }
}

/// The number of a kind is the number of no other kind.
pub proof fn lemma_tag_round_trip(t: AssetType)
    ensures
        AssetType::of_tag(t.spec_tag()) == t,
{
}

/// The 48 bytes of an entry: its fields in order, little-endian.
pub open spec fn entry_bytes(e: TocEntry) -> Seq<u8> {
    u64_le_bytes(e.name_hash) + u64_le_bytes(e.offset) + u64_le_bytes(e.size) + u64_le_bytes(
        e.compressed_size,
    ) + u32_le_bytes(e.flags) + u32_le_bytes(e.type_tag) + u64_le_bytes(e.reserved)
}

/// The entry that the 48 bytes from byte `p` of `bytes` on hold.
pub open spec fn entry_at(bytes: Seq<u8>, p: int) -> TocEntry {
    TocEntry {
        name_hash: u64_le_at(bytes, p),
        offset: u64_le_at(bytes, p + 8),
        size: u64_le_at(bytes, p + 16),
        compressed_size: u64_le_at(bytes, p + 24),
        flags: u32_le_at(bytes, p + 32),
        type_tag: u32_le_at(bytes, p + 36),
        reserved: u64_le_at(bytes, p + 40),
    }
}

impl TocEntry {
    /// Creates the entry of an asset that is stored as it is.
    pub fn new(name: &str, offset: u64, size: u64, asset_type: AssetType) -> (r: Self)
        ensures
            r == (TocEntry {
                name_hash: fnv1a(name.spec_bytes()),
                offset,
                size,
                compressed_size: 0,
                flags: 0,
                type_tag: asset_type.spec_tag(),
                reserved: 0,
            }),
    {
        Self {
            name_hash: hash_name(name),
            offset,
            size,
            compressed_size: 0,
            flags: 0,
            type_tag: asset_type.tag(),
            reserved: 0,
        }
    }

    /// Creates the entry of an asset that is stored compressed.
    pub fn new_compressed(
        name: &str,
        offset: u64,
        size: u64,
        compressed_size: u64,
        asset_type: AssetType,
    ) -> (r: Self)
        ensures
            r == (TocEntry {
                name_hash: fnv1a(name.spec_bytes()),
                offset,
                size,
                compressed_size,
                flags: FLAG_COMPRESSED,
                type_tag: asset_type.spec_tag(),
                reserved: 0,
            }),
    {
        Self {
            name_hash: hash_name(name),
            offset,
            size,
            compressed_size,
            flags: FLAG_COMPRESSED,
            type_tag: asset_type.tag(),
            reserved: 0,
        }
    }

    /// The compressed flag is set.
    pub open spec fn spec_is_compressed(&self) -> bool {
        self.flags & FLAG_COMPRESSED != 0
    }

    /// Tells whether the asset is stored compressed.
    pub fn is_compressed(&self) -> (r: bool)
        ensures
            r == self.spec_is_compressed(),
    {
        self.flags & FLAG_COMPRESSED != 0
    }

    /// The 48 bytes of the entry.
    pub fn as_bytes(&self) -> (r: Vec<u8>)
        ensures
            r@ == entry_bytes(*self),
            r@.len() == TOC_ENTRY_SIZE,
    {
        let mut out: Vec<u8> = Vec::new();
        push_u64_le(&mut out, self.name_hash);
        proof {
            crate::endian::lemma_empty_then(u64_le_bytes(self.name_hash));
        }
        push_u64_le(&mut out, self.offset);
        push_u64_le(&mut out, self.size);
        push_u64_le(&mut out, self.compressed_size);
        push_u32_le(&mut out, self.flags);
        push_u32_le(&mut out, self.type_tag);
        push_u64_le(&mut out, self.reserved);
        out
    }

    /// Reads an entry from the first 48 bytes of `bytes`.
    pub fn from_bytes(bytes: &[u8]) -> (r: Result<Self, PakError>)
        ensures
            bytes@.len() < TOC_ENTRY_SIZE ==> r is Err && r->Err_0.is_invalid_toc(
                "TOC entry too small",
            ),
            bytes@.len() >= TOC_ENTRY_SIZE ==> r is Ok && r->Ok_0 == entry_at(bytes@, 0),
    {
        if bytes.len() < TOC_ENTRY_SIZE {
            return Err(PakError::InvalidToc("TOC entry too small".to_owned()));
        }
        Ok(
            TocEntry {
                name_hash: read_u64_le(bytes, 0),
                offset: read_u64_le(bytes, 8),
                size: read_u64_le(bytes, 16),
                compressed_size: read_u64_le(bytes, 24),
                flags: read_u32_le(bytes, 32),
                type_tag: read_u32_le(bytes, 36),
                reserved: read_u64_le(bytes, 40),
            },
        )
    }
}

} // verus!
