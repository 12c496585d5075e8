use super::format::constants::{HEADER_SIZE, TOC_ENTRY_SIZE};
use super::format::error::PakError;
use super::format::header::{header_at, PakHeader};
use super::format::toc::{entry_at, AssetType, TocEntry};
use crate::foreign::{str_from_utf8, zstd_decode, zstd_decoded};
use crate::mtf::{find_nul, first_nul};
use crate::names::NameMap;
use crate::raw_bytes::RawBytesContainer;
use vstd::prelude::*;

verus! {

/// Reads assets out of the bytes of an archive.
pub struct PakReader {
    data: RawBytesContainer,
    header: PakHeader,
    toc: Vec<TocEntry>,
    string_table: Vec<u8>,
    name_map: NameMap<usize>,
}

/// What an archive says of one asset.
#[derive(Debug, Clone)]
pub struct AssetInfo {
    pub name: String,
    pub size: u64,
    pub compressed_size: u64,
    pub is_compressed: bool,
    pub asset_type: AssetType,
}

/// The `count` entries that stand one after the other from byte `start` of
/// `bytes` on.
pub open spec fn toc_at(bytes: Seq<u8>, start: int, count: nat) -> Seq<TocEntry> {
    Seq::new(count, |i: int| entry_at(bytes, start + TOC_ENTRY_SIZE * i))
}

/// The map from names to entry numbers that a walk over a table of names
/// adds to `acc`, from byte `pos` of the table and entry number `idx` on.
/// Each name that ends with a NUL byte and is valid UTF-8 stands for the
/// next entry; one that is not valid is passed over without an entry; the
/// walk ends with the table, with the entries, or at a name without a NUL
/// byte. Of two equal names the later one stays.
pub open spec fn scan_names(
    table: Seq<u8>,
    pos: int,
    idx: nat,
    count: nat,
    acc: Map<Seq<char>, usize>,
) -> Map<Seq<char>, usize>
    decreases table.len() - pos,
{
    if pos < 0 || pos >= table.len() || idx >= count {
        acc
    } else if first_nul(table, pos) >= table.len() || first_nul(table, pos) < pos {
        acc
    } else if vstd::utf8::valid_utf8(table.subrange(pos, first_nul(table, pos))) {
        scan_names(
            table,
            first_nul(table, pos) + 1,
            idx + 1,
            count,
            acc.insert(
                vstd::utf8::decode_utf8(table.subrange(pos, first_nul(table, pos))),
                idx as usize,
            ),
        )
    } else {
        scan_names(table, first_nul(table, pos) + 1, idx, count, acc)
    }
}

/// Where the table of contents ends in an archive of `len` bytes, or
/// `None` where the header says that it ends past the archive.
pub open spec fn toc_end(header: PakHeader, len: nat) -> Option<int> {
    if header.toc_offset + header.entry_count * TOC_ENTRY_SIZE > len {
        None
    } else {
        Some(header.toc_offset + header.entry_count * TOC_ENTRY_SIZE)
    }
}

/// The bytes of an asset in an archive of `len` bytes, as first and
/// past-the-last position: `size` bytes from the entry's offset on, or
/// `None` where they reach past the archive.
pub open spec fn asset_span(entry: TocEntry, size: u64, len: nat) -> Option<(int, int)> {
    if entry.offset + size > len {
        None
    } else {
        Some((entry.offset as int, entry.offset + size))
    }
}

fn span_of(entry: &TocEntry, size: u64, len: usize) -> (r: Option<(usize, usize)>)
    ensures
        match r {
            Some((start, end)) => asset_span(*entry, size, len as nat) == Some(
                (start as int, end as int),
            ) && start <= end <= len,
            None => asset_span(*entry, size, len as nat) is None,
        },
{
    let end: u128 = entry.offset as u128 + size as u128;
    if end > len as u128 {
        None
    } else {
        Some((entry.offset as usize, end as usize))
    }
}

impl PakReader {
    /// The bytes of the archive.
    pub closed spec fn spec_data(&self) -> Seq<u8> {
        self.data@
    }

    /// The header.
    pub closed spec fn spec_header(&self) -> PakHeader {
        self.header
    }

    /// The table of contents.
    pub closed spec fn spec_toc(&self) -> Seq<TocEntry> {
        self.toc@
    }

    /// The entry number of each name.
    pub closed spec fn spec_names(&self) -> Map<Seq<char>, usize> {
        self.name_map@
    }

    /// Every name stands for an entry of the table of contents.
    pub closed spec fn wf(&self) -> bool {
        &&& self.name_map.wf()
        &&& forall|name: Seq<char>| #[trigger]
            self.name_map@.dom().contains(name) ==> self.name_map@[name] < self.toc@.len()
    }

    /// Takes the bytes of an archive and reads its header, its table of
    /// contents and its names.
    pub fn open(data: RawBytesContainer) -> (r: Result<Self, PakError>)
        ensures
            data@.len() < HEADER_SIZE ==> r is Err && r->Err_0.is_invalid_toc("File too small"),
            data@.len() >= HEADER_SIZE ==> match header_at(data@).fault() {
                Some(e) => r is Err && r->Err_0 == e,
                None => match toc_end(header_at(data@), data@.len()) {
                    None => r is Err && r->Err_0.is_invalid_toc("TOC extends beyond file"),
                    Some(end) => {
                        &&& r is Ok
                        &&& r->Ok_0.wf()
                        &&& r->Ok_0.spec_data() == data@
                        &&& r->Ok_0.spec_header() == header_at(data@)
                        &&& r->Ok_0.spec_toc() == toc_at(
                            data@,
                            header_at(data@).toc_offset as int,
                            header_at(data@).entry_count as nat,
                        )
                        &&& r->Ok_0.spec_names() == scan_names(
                            data@.subrange(end, data@.len() as int),
                            0,
                            0,
                            header_at(data@).entry_count as nat,
                            Map::<Seq<char>, usize>::empty(),
                        )
                    },
                },
            },
    {
        let slice = data.as_slice();
        let len = slice.len();
        if len < HEADER_SIZE {
            return Err(PakError::InvalidToc("File too small".to_owned()));
        }
        let header = match PakHeader::from_bytes(slice) {
            Ok(h) => h,
            Err(e) => {
                return Err(e);
            },
        };
        let end_wide: u128 = header.toc_offset as u128 + (header.entry_count as u128) * 48;
        if end_wide > len as u128 {
            return Err(PakError::InvalidToc("TOC extends beyond file".to_owned()));
        }
        let toc_start = header.toc_offset as usize;
        let count = header.entry_count as usize;
        let toc_end = end_wide as usize;
        let mut toc: Vec<TocEntry> = Vec::new();
        let mut i: usize = 0;
        while i < count
            invariant
                i <= count,
                len == slice@.len(),
                toc_start + count * TOC_ENTRY_SIZE == toc_end,
                toc_end <= len,
                toc@ == toc_at(slice@, toc_start as int, i as nat),
            decreases count - i,
        {
            let entry_start = toc_start + i * TOC_ENTRY_SIZE;
            let entry_bytes = vstd::slice::slice_subrange(
                slice,
                entry_start,
                entry_start + TOC_ENTRY_SIZE,
            );
            match TocEntry::from_bytes(entry_bytes) {
                Ok(entry) => {
                    proof {
                        lemma_entry_in_place(slice@, entry_start as int);
                    }
                    toc.push(entry);
                },
                Err(e) => {
                    return Err(e);
                },
            }
            i += 1;
            assert(toc@ =~= toc_at(slice@, toc_start as int, i as nat));
        }
        let table = vstd::slice::slice_subrange(slice, toc_end, len);
        let string_table = vstd::slice::slice_to_vec(table);
        let mut name_map: NameMap<usize> = NameMap::new();
        let mut pos: usize = 0;
        let mut entry_idx: usize = 0;
        let mut done = false;
        while !done && pos < table.len() && entry_idx < count
            invariant
                pos <= table@.len(),
                entry_idx <= count,
                name_map.wf(),
                forall|name: Seq<char>| #[trigger]
                    name_map@.dom().contains(name) ==> name_map@[name] < count,
                scan_names(table@, 0, 0, count as nat, Map::<Seq<char>, usize>::empty())
                    == scan_names(table@, pos as int, entry_idx as nat, count as nat, name_map@),
                done ==> scan_names(table@, pos as int, entry_idx as nat, count as nat, name_map@)
                    == name_map@,
            decreases table@.len() - pos + (if done {
                    0int
                } else {
                    1int
                }),
        {
            let end = find_nul(table, pos);
            if end >= table.len() {
                done = true;
            } else {
                match str_from_utf8(vstd::slice::slice_subrange(table, pos, end)) {
                    Some(name) => {
                        proof {
                            vstd::utf8::encode_utf8_decode_utf8(name@);
                        }
                        name_map.insert(name.to_owned(), entry_idx);
                        entry_idx += 1;
                    },
                    None => {},
                }
                pos = end + 1;
            }
        }
        Ok(Self { data, header, toc, string_table, name_map })
    }

    /// Returns the bytes of the asset `name`, decompressed where they are
    /// stored compressed.
    pub fn get_asset(&self, name: &str) -> (r: Result<Vec<u8>, PakError>)
        requires
            self.wf(),
        ensures
            !self.spec_names().dom().contains(name@) ==> r is Err && r->Err_0.is_not_found(
                name@,
            ),
            self.spec_names().dom().contains(name@) ==> ({
                let entry = self.spec_toc()[self.spec_names()[name@] as int];
                let size = if entry.spec_is_compressed() {
                    entry.compressed_size
                } else {
                    entry.size
                };
                match asset_span(entry, size, self.spec_data().len()) {
                    None => r is Err && r->Err_0.is_invalid_toc("Asset data extends beyond file"),
                    Some((start, end)) => if entry.spec_is_compressed() {
                        match zstd_decoded(self.spec_data().subrange(start, end)) {
                            Some(bytes) => r is Ok && r->Ok_0@ == bytes,
                            None => r is Err && r->Err_0 is DecompressionFailed,
                        }
                    } else {
                        r is Ok && r->Ok_0@ == self.spec_data().subrange(start, end)
                    },
                }
            }),
    {
        let idx = match self.name_map.get(name) {
            Some(i) => i,
            None => {
                return Err(PakError::AssetNotFound(name.to_owned()));
            },
        };
        let entry = &self.toc[idx];
        let slice = self.data.as_slice();
        let size = if entry.is_compressed() {
            entry.compressed_size
        } else {
            entry.size
        };
        let (start, end) = match span_of(entry, size, slice.len()) {
            Some(span) => span,
            None => {
                return Err(
                    PakError::InvalidToc("Asset data extends beyond file".to_owned()),
                );
            },
        };
        let data = vstd::slice::slice_subrange(slice, start, end);
        if entry.is_compressed() {
            match zstd_decode(data) {
                Ok(bytes) => Ok(bytes),
                Err(text) => Err(PakError::DecompressionFailed(text)),
            }
        } else {
            Ok(vstd::slice::slice_to_vec(data))
        }
    }

    /// Returns the bytes of the asset `name` as a part of the archive, or
    /// `None` where the asset is stored compressed.
    pub fn get_asset_slice(&self, name: &str) -> (r: Result<Option<&[u8]>, PakError>)
        requires
            self.wf(),
        ensures
            !self.spec_names().dom().contains(name@) ==> r is Err && r->Err_0.is_not_found(
                name@,
            ),
            self.spec_names().dom().contains(name@) ==> ({
                let entry = self.spec_toc()[self.spec_names()[name@] as int];
                if entry.spec_is_compressed() {
                    r is Ok && r->Ok_0 is None
                } else {
                    match asset_span(entry, entry.size, self.spec_data().len()) {
                        None => r is Err && r->Err_0.is_invalid_toc(
                            "Asset data extends beyond file",
                        ),
                        Some((start, end)) => r is Ok && r->Ok_0 is Some && r->Ok_0.unwrap()@
                            == self.spec_data().subrange(start, end),
                    }
                }
            }),
    {
        let idx = match self.name_map.get(name) {
            Some(i) => i,
            None => {
                return Err(PakError::AssetNotFound(name.to_owned()));
            },
        };
        let entry = &self.toc[idx];
        if entry.is_compressed() {
            return Ok(None);
        }
        let slice = self.data.as_slice();
        let (start, end) = match span_of(entry, entry.size, slice.len()) {
            Some(span) => span,
            None => {
                return Err(
                    PakError::InvalidToc("Asset data extends beyond file".to_owned()),
                );
            },
        };
        Ok(Some(vstd::slice::slice_subrange(slice, start, end)))
    }

    /// The names of the assets, each once, in the order in which the table
    /// of names first holds them.
    pub closed spec fn spec_name_list(&self) -> Seq<Seq<char>> {
        self.name_map.names()
    }

    /// The list of names holds the names that stand for an entry, each
    /// once.
    pub proof fn lemma_name_list(&self)
        requires
            self.wf(),
        ensures
            forall|name: Seq<char>|
                self.spec_names().dom().contains(name) <==> exists|i: int|
                    0 <= i < self.spec_name_list().len() && #[trigger] self.spec_name_list()[i]
                        == name,
            forall|i: int, j: int|
                0 <= i < j < self.spec_name_list().len() ==> self.spec_name_list()[i]
                    != self.spec_name_list()[j],
    {
        self.name_map.lemma_names();
    }

    /// Returns the names of the assets, each once, in the order in which
    /// the table of names first holds them.
    pub fn list_assets(&self) -> (r: Vec<String>)
        requires
            self.wf(),
        ensures
            r@.len() == self.spec_name_list().len(),
            forall|i: int| 0 <= i < r@.len() ==> r@[i]@ == self.spec_name_list()[i],
    {
        self.name_map.keys()
    }

    /// Returns what the archive says of the asset `name`, or `None` where
    /// it holds no such asset.
    pub fn get_info(&self, name: &str) -> (r: Option<AssetInfo>)
        requires
            self.wf(),
        ensures
            !self.spec_names().dom().contains(name@) ==> r is None,
            self.spec_names().dom().contains(name@) ==> ({
                let entry = self.spec_toc()[self.spec_names()[name@] as int];
                &&& r is Some
                &&& r.unwrap().name@ == name@
                &&& r.unwrap().size == entry.size
                &&& r.unwrap().compressed_size == entry.compressed_size
                &&& r.unwrap().is_compressed == entry.spec_is_compressed()
                &&& r.unwrap().asset_type == AssetType::of_tag(entry.type_tag)
            }),
    {
        let idx = match self.name_map.get(name) {
            Some(i) => i,
            None => {
                return None;
            },
        };
        let entry = &self.toc[idx];
        Some(
            AssetInfo {
                name: name.to_owned(),
                size: entry.size,
                compressed_size: entry.compressed_size,
                is_compressed: entry.is_compressed(),
                asset_type: AssetType::from(entry.type_tag),
            },
        )
    }

    /// Returns the number of entries of the table of contents.
    pub fn asset_count(&self) -> (r: usize)
        ensures
            r == self.spec_toc().len(),
    {
        self.toc.len()
    }

    /// The header.
    pub fn header(&self) -> (r: &PakHeader)
        ensures
            *r == self.spec_header(),
    {
        &self.header
    }
}

proof fn lemma_entry_in_place(s: Seq<u8>, p: int)
    requires
        0 <= p,
        p + 48 <= s.len(),
    ensures
        entry_at(s.subrange(p, p + 48), 0) == entry_at(s, p),
{
    reveal(crate::endian::u64_le_at);
    let t = s.subrange(p, p + 48);
    assert forall|k: int| 0 <= k < 48 implies t[k] == s[p + k] by {}
}

} // verus!
