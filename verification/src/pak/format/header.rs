use super::constants::{HEADER_SIZE, PAK_VERSION};
use super::error::PakError;
use crate::endian::{
    push_u32_le, push_u64_le, read_u32_le, read_u64_le, u32_le_at, u32_le_bytes, u64_le_at,
    u64_le_bytes,
};
use vstd::prelude::*;

verus! {

/// The header of an archive, 32 bytes when written out.
#[derive(Clone, Copy, Debug)]
pub struct PakHeader {
    pub magic: [u8; 4],
    pub version: u32,
    pub toc_offset: u64,
    pub data_offset: u64,
    pub entry_count: u32,
    pub flags: u32,
}

/// The magic tag as a sequence.
pub open spec fn magic() -> Seq<u8> {
    seq![0x50u8, 0x41u8, 0x4Bu8, 0u8]
}

/// The 32 bytes of a header: its fields in order, the numbers
/// little-endian.
pub open spec fn header_bytes(h: PakHeader) -> Seq<u8> {
    h.magic@ + u32_le_bytes(h.version) + u64_le_bytes(h.toc_offset) + u64_le_bytes(h.data_offset)
        + u32_le_bytes(h.entry_count) + u32_le_bytes(h.flags)
}

/// The header that the first 32 bytes of `bytes` hold.
pub open spec fn header_at(bytes: Seq<u8>) -> PakHeader {
    PakHeader {
        magic: [bytes[0], bytes[1], bytes[2], bytes[3]],
        version: u32_le_at(bytes, 4),
        toc_offset: u64_le_at(bytes, 8),
        data_offset: u64_le_at(bytes, 16),
        entry_count: u32_le_at(bytes, 24),
        flags: u32_le_at(bytes, 28),
    }
}

impl PakHeader {
    /// What is wrong with the header, if anything: the magic tag is looked
    /// at first, then the version.
    pub open spec fn fault(&self) -> Option<PakError> {
        if self.magic@ != magic() {
            Some(PakError::InvalidMagic)
        } else if self.version != PAK_VERSION {
            Some(PakError::UnsupportedVersion(self.version))
        } else {
            None
        }
    }

    /// Creates the header of an archive of the current version.
    pub fn new(entry_count: u32, toc_offset: u64, data_offset: u64) -> (r: Self)
        ensures
            r.magic@ == magic(),
            r.version == PAK_VERSION,
            r.toc_offset == toc_offset,
            r.data_offset == data_offset,
            r.entry_count == entry_count,
            r.flags == 0,
            r.fault() is None,
    {
        let magic: [u8; 4] = [0x50, 0x41, 0x4B, 0];
        assert(magic@ =~= self::magic());
        Self {
            magic,
            version: PAK_VERSION,
            toc_offset,
            data_offset,
            entry_count,
            flags: 0,
        }
    }

    /// Checks the magic tag and the version.
    pub fn validate(&self) -> (r: Result<(), PakError>)
        ensures
            match self.fault() {
                Some(e) => r == Err::<(), PakError>(e),
                None => r is Ok,
            },
    {
        if self.magic[0] != 0x50 || self.magic[1] != 0x41 || self.magic[2] != 0x4B
            || self.magic[3] != 0 {
            return Err(PakError::InvalidMagic);
        }
        assert(self.magic@ =~= magic());
        if self.version != PAK_VERSION {
            return Err(PakError::UnsupportedVersion(self.version));
        }
        Ok(())
    }

    /// The 32 bytes of the header.
    pub fn as_bytes(&self) -> (r: Vec<u8>)
        ensures
            r@ == header_bytes(*self),
            r@.len() == HEADER_SIZE,
    {
        let mut out: Vec<u8> = Vec::new();
        out.push(self.magic[0]);
        out.push(self.magic[1]);
        out.push(self.magic[2]);
        out.push(self.magic[3]);
        assert(out@ =~= self.magic@);
        push_u32_le(&mut out, self.version);
        push_u64_le(&mut out, self.toc_offset);
        push_u64_le(&mut out, self.data_offset);
        push_u32_le(&mut out, self.entry_count);
        push_u32_le(&mut out, self.flags);
        out
    }

    /// Reads a header from the first 32 bytes of `bytes` and checks it.
    pub fn from_bytes(bytes: &[u8]) -> (r: Result<Self, PakError>)
        ensures
            bytes@.len() < HEADER_SIZE ==> r is Err && r->Err_0.is_invalid_toc("Header too small"),
            bytes@.len() >= HEADER_SIZE ==> match header_at(bytes@).fault() {
                Some(e) => r is Err && r->Err_0 == e,
                None => r is Ok && r->Ok_0 == header_at(bytes@),
            },
    {
        if bytes.len() < HEADER_SIZE {
            return Err(PakError::InvalidToc("Header too small".to_owned()));
        }
        let header = PakHeader {
            magic: [bytes[0], bytes[1], bytes[2], bytes[3]],
            version: read_u32_le(bytes, 4),
            toc_offset: read_u64_le(bytes, 8),
            data_offset: read_u64_le(bytes, 16),
            entry_count: read_u32_le(bytes, 24),
            flags: read_u32_le(bytes, 28),
        };
        match header.validate() {
            Ok(()) => Ok(header),
            Err(e) => Err(e),
        }
    }
}

} // verus!
