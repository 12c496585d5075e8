use super::asset::AssetEntry;
use super::format::constants::{HEADER_SIZE, TOC_ENTRY_SIZE};
use super::format::error::PakError;
use super::format::hash::fnv1a;
use super::format::header::{header_bytes, PakHeader};
use super::format::toc::{entry_bytes, AssetType, TocEntry};
use crate::foreign::{zstd_encode, zstd_encoded};
use crate::names::NameMap;
use vstd::prelude::*;

verus! {

/// Collects assets and writes them out as one archive.
pub struct PakBuilder {
    assets: Vec<AssetEntry>,
    compression_level: i32,
    compress_threshold: usize,
}

/// An [`AssetEntry`] as a value of specifications.
pub struct AssetView {
    pub name: Seq<char>,
    pub data: Seq<u8>,
    pub asset_type: AssetType,
}

impl View for AssetEntry {
    type V = AssetView;

    open spec fn view(&self) -> AssetView {
        AssetView { name: self.name@, data: self.data@, asset_type: self.asset_type }
    }
}

/// The views of a list of assets.
pub open spec fn assets_view(assets: Seq<AssetEntry>) -> Seq<AssetView> {
    Seq::new(assets.len(), |i: int| assets[i]@)
}

/// The bytes under which an asset is stored: those that `compressed`
/// holds, where the asset is at least `threshold` bytes long and they are
/// fewer than its own; else its own.
pub open spec fn stored(data: Seq<u8>, compressed: Option<Seq<u8>>, threshold: usize) -> Seq<u8> {
    if data.len() >= threshold && compressed is Some && compressed.unwrap().len() < data.len() {
        compressed.unwrap()
    } else {
        data
    }
}

/// The entry of an asset that is stored at `offset`, given what
/// compressing its bytes came to.
pub open spec fn entry_of(a: AssetView, offset: u64, compressed: Option<Seq<u8>>, threshold: usize)
    -> TocEntry {
    if a.data.len() >= threshold && compressed is Some && compressed.unwrap().len()
        < a.data.len() {
        TocEntry {
            name_hash: fnv1a(vstd::utf8::encode_utf8(a.name)),
            offset,
            size: a.data.len() as u64,
            compressed_size: compressed.unwrap().len() as u64,
            flags: 1,
            type_tag: a.asset_type.spec_tag(),
            reserved: 0,
        }
    } else {
        TocEntry {
            name_hash: fnv1a(vstd::utf8::encode_utf8(a.name)),
            offset,
            size: a.data.len() as u64,
            compressed_size: 0,
            flags: 0,
            type_tag: a.asset_type.spec_tag(),
            reserved: 0,
        }
    }
}

/// What compressing an asset comes to: nothing below the threshold, where
/// no attempt is made.
pub open spec fn attempt(data: Seq<u8>, level: i32, threshold: usize) -> Option<Seq<u8>> {
    if data.len() >= threshold {
        zstd_encoded(data, level as int)
    } else {
        None
    }
}

/// The stored bytes of a list of assets, one after the other.
pub open spec fn payloads(assets: Seq<AssetView>, level: i32, threshold: usize) -> Seq<u8>
    decreases assets.len(),
{
    if assets.len() == 0 {
        Seq::<u8>::empty()
    } else {
        payloads(assets.drop_last(), level, threshold) + stored(
            assets.last().data,
            attempt(assets.last().data, level, threshold),
            threshold,
        )
    }
}

/// The bytes of the table of contents of a list of assets whose stored
/// bytes start at byte `base` of the archive.
pub open spec fn toc_bytes(assets: Seq<AssetView>, base: nat, level: i32, threshold: usize) -> Seq<
    u8,
>
    decreases assets.len(),
{
    if assets.len() == 0 {
        Seq::<u8>::empty()
    } else {
        toc_bytes(assets.drop_last(), base, level, threshold) + entry_bytes(
            entry_of(
                assets.last(),
                (base + payloads(assets.drop_last(), level, threshold).len()) as u64,
                attempt(assets.last().data, level, threshold),
                threshold,
            ),
        )
    }
}

/// A name occurs among the names of `assets`.
pub open spec fn has_name(assets: Seq<AssetView>, name: Seq<char>) -> bool {
    exists|i: int| 0 <= i < assets.len() && (#[trigger] assets[i]).name == name
}

/// The table of names of a list of assets: each name once, where it first
/// occurs, as its UTF-8 bytes and a NUL byte.
pub open spec fn name_table(assets: Seq<AssetView>) -> Seq<u8>
    decreases assets.len(),
{
    if assets.len() == 0 {
        Seq::<u8>::empty()
    } else if has_name(assets.drop_last(), assets.last().name) {
        name_table(assets.drop_last())
    } else {
        name_table(assets.drop_last()) + vstd::utf8::encode_utf8(assets.last().name) + seq![0u8]
    }
}

/// The bytes of the archive of a list of assets: the header, the stored
/// bytes, the table of contents and the table of names. The entry count is
/// cut down to 32 bits.
pub open spec fn archive(assets: Seq<AssetView>, level: i32, threshold: usize) -> Seq<u8> {
    header_bytes(
        PakHeader {
            magic: [0x50u8, 0x41u8, 0x4Bu8, 0u8],
            version: 1,
            toc_offset: (HEADER_SIZE + payloads(assets, level, threshold).len()) as u64,
            data_offset: HEADER_SIZE as u64,
            entry_count: assets.len() as u32,
            flags: 0,
        },
    ) + payloads(assets, level, threshold) + toc_bytes(
        assets,
        HEADER_SIZE as nat,
        level,
        threshold,
    ) + name_table(assets)
}

/// An upper bound on the length of the archive of a list of assets: the
/// header and, for each asset, its bytes, an entry, its name and a NUL
/// byte.
pub open spec fn size_bound(assets: Seq<AssetView>) -> nat
    decreases assets.len(),
{
    if assets.len() == 0 {
        HEADER_SIZE as nat
    } else {
        size_bound(assets.drop_last()) + assets.last().data.len() + (TOC_ENTRY_SIZE as nat)
            + vstd::utf8::encode_utf8(assets.last().name).len() + 1
    }
}

/// Decides under which bytes an asset is stored and makes its entry,
/// given what compressing the asset came to (`None` where it failed or
/// was not tried).
pub fn pack_asset(
    asset: &AssetEntry,
    entry_offset: u64,
    compressed: Option<Vec<u8>>,
    threshold: usize,
) -> (r: (Vec<u8>, TocEntry))
    ensures
        r.0@ == stored(
            asset.data@,
            match compressed {
                Some(c) => Some(c@),
                None => None,
            },
            threshold,
        ),
        r.1 == entry_of(
            asset@,
            entry_offset,
            match compressed {
                Some(c) => Some(c@),
                None => None,
            },
            threshold,
        ),
{
    let plain_size = asset.data.len() as u64;
    if asset.data.len() >= threshold {
        match compressed {
            Some(c) => {
                if c.len() < asset.data.len() {
                    let compressed_size = c.len() as u64;
                    let entry = TocEntry::new_compressed(
                        asset.name.as_str(),
                        entry_offset,
                        plain_size,
                        compressed_size,
                        asset.asset_type,
                    );
                    return (c, entry);
                }
            },
            None => {},
        }
    }
    let entry = TocEntry::new(asset.name.as_str(), entry_offset, plain_size, asset.asset_type);
    (asset.data.clone(), entry)
}

impl PakBuilder {
    /// The assets so far, in order.
    pub closed spec fn spec_assets(&self) -> Seq<AssetView> {
        assets_view(self.assets@)
    }

    /// The compression level.
    pub closed spec fn spec_level(&self) -> i32 {
        self.compression_level
    }

    /// The size from which assets are compressed.
    pub closed spec fn spec_threshold(&self) -> usize {
        self.compress_threshold
    }

    /// The compression level lies within what zstd takes.
    pub closed spec fn wf(&self) -> bool {
        1 <= self.compression_level <= 22
    }

    /// Creates a builder without assets, with compression level 3 for
    /// assets of 512 bytes and more.
    pub fn new() -> (r: Self)
        ensures
            r.wf(),
            r.spec_assets() == Seq::<AssetView>::empty(),
            r.spec_level() == 3,
            r.spec_threshold() == 512,
    {
        let r = Self { assets: Vec::new(), compression_level: 3, compress_threshold: 512 };
        assert(r.spec_assets() =~= Seq::<AssetView>::empty());
        r
    }

    /// Sets the compression level, brought into the range from 1 to 22.
    pub fn compression_level(&mut self, level: i32) -> (r: &mut Self)
        ensures
            *final(self) == *final(r),
            r.wf(),
            r.spec_level() == if level < 1 {
                1
            } else if level > 22 {
                22
            } else {
                level
            },
            r.spec_assets() == old(self).spec_assets(),
            r.spec_threshold() == old(self).spec_threshold(),
    {
        self.compression_level = if level < 1 {
            1
        } else if level > 22 {
            22
        } else {
            level
        };
        self
    }

    /// Sets the size in bytes from which assets are compressed.
    pub fn compress_threshold(&mut self, threshold: usize) -> (r: &mut Self)
        ensures
            *final(self) == *final(r),
            r.wf() == old(self).wf(),
            r.spec_threshold() == threshold,
            r.spec_assets() == old(self).spec_assets(),
            r.spec_level() == old(self).spec_level(),
    {
        self.compress_threshold = threshold;
        self
    }

    /// Adds an asset after those that are there.
    pub fn add_asset(&mut self, asset: AssetEntry) -> (r: &mut Self)
        ensures
            *final(self) == *final(r),
            r.wf() == old(self).wf(),
            r.spec_assets() == old(self).spec_assets().push(asset@),
            r.spec_level() == old(self).spec_level(),
            r.spec_threshold() == old(self).spec_threshold(),
    {
        self.assets.push(asset);
        assert(self.spec_assets() =~= old(self).spec_assets().push(asset@));
        self
    }

    /// Returns the number of assets.
    pub fn asset_count(&self) -> (r: usize)
        ensures
            r == self.spec_assets().len(),
    {
        self.assets.len()
    }

    /// The compression level.
    pub fn level(&self) -> (r: i32)
        ensures
            r == self.spec_level(),
    {
        self.compression_level
    }

    /// The size in bytes from which assets are compressed.
    pub fn threshold(&self) -> (r: usize)
        ensures
            r == self.spec_threshold(),
    {
        self.compress_threshold
    }

    /// The asset at `index`, or `None` past the last one.
    pub fn asset(&self, index: usize) -> (r: Option<&AssetEntry>)
        ensures
            index < self.spec_assets().len() ==> r is Some && r.unwrap()@
                == self.spec_assets()[index as int],
            index >= self.spec_assets().len() ==> r is None,
    {
        if index < self.assets.len() {
            Some(&self.assets[index])
        } else {
            None
        }
    }

    /// Builds the bytes of the archive: the header, then each asset's
    /// bytes, compressed where that makes them fewer, then the table of
    /// contents and the table of names.
    pub fn build(&self) -> (r: Result<Vec<u8>, PakError>)
        requires
            self.wf(),
            size_bound(self.spec_assets()) <= usize::MAX,
        ensures
            r is Ok,
            r->Ok_0@ == archive(self.spec_assets(), self.spec_level(), self.spec_threshold()),
    {
        let ghost all = self.spec_assets();
        let level = self.compression_level;
        let threshold = self.compress_threshold;
        let mut body: Vec<u8> = Vec::new();
        let mut toc: Vec<u8> = Vec::new();
        let mut string_table: Vec<u8> = Vec::new();
        let mut seen: NameMap<usize> = NameMap::new();
        let mut i: usize = 0;
        while i < self.assets.len()
            invariant
                i <= self.assets@.len(),
                all == assets_view(self.assets@),
                1 <= level <= 22,
                size_bound(all) <= usize::MAX,
                body@ == payloads(all.take(i as int), level, threshold),
                toc@ == toc_bytes(all.take(i as int), HEADER_SIZE as nat, level, threshold),
                string_table@ == name_table(all.take(i as int)),
                HEADER_SIZE + body@.len() + toc@.len() + string_table@.len() <= size_bound(
                    all.take(i as int),
                ),
                seen.wf(),
                forall|name: Seq<char>|
                    seen@.dom().contains(name) <==> has_name(all.take(i as int), name),
            decreases self.assets@.len() - i,
        {
            let asset = &self.assets[i];
            let ghost front = all.take(i as int);
            let ghost upto = all.take(i + 1);
            proof {
                assert(upto.drop_last() =~= front);
                assert(upto.last() == asset@);
                lemma_size_bound_grows(all, i + 1);
            }
            let entry_offset = (HEADER_SIZE + body.len()) as u64;
            let compressed = if asset.data.len() >= threshold {
                zstd_encode(asset.data.as_slice(), level)
            } else {
                None
            };
            let (data_to_write, entry) = pack_asset(asset, entry_offset, compressed, threshold);
            body.extend_from_slice(data_to_write.as_slice());
            assert(body@ =~= payloads(upto, level, threshold));
            let entry_bytes = entry.as_bytes();
            toc.extend_from_slice(entry_bytes.as_slice());
            assert(toc@ =~= toc_bytes(upto, HEADER_SIZE as nat, level, threshold));
            if seen.get(asset.name.as_str()).is_none() {
                seen.insert(asset.name.clone(), string_table.len());
                let ghost before = string_table@;
                string_table.extend_from_slice(asset.name.as_str().as_bytes());
                string_table.push(0);
                assert(string_table@ =~= before + vstd::utf8::encode_utf8(asset.name@) + seq![
                    0u8,
                ]);
            }
            proof {
                assert forall|name: Seq<char>| seen@.dom().contains(name) <==> has_name(
                    upto,
                    name,
                ) by {
                    if has_name(upto, name) {
                        let k = choose|k: int| 0 <= k < upto.len() && (#[trigger] upto[k]).name
                            == name;
                        if k < i {
                            assert(front[k].name == name);
                        }
                    }
                    if has_name(front, name) {
                        let k = choose|k: int| 0 <= k < front.len() && (#[trigger] front[k]).name
                            == name;
                        assert(upto[k].name == name);
                    }
                    if name == asset@.name {
                        assert(upto[i as int].name == name);
                    }
                }
            }
            i += 1;
        }
        proof {
            assert(all.take(i as int) =~= all);
        }
        let header = PakHeader::new(
            #[verifier::truncate] (self.assets.len() as u32),
            (HEADER_SIZE + body.len()) as u64,
            HEADER_SIZE as u64,
        );
        assert(header.magic@ =~= seq![0x50u8, 0x41u8, 0x4Bu8, 0u8]);
        let mut out = header.as_bytes();
        out.extend_from_slice(body.as_slice());
        out.extend_from_slice(toc.as_slice());
        out.extend_from_slice(string_table.as_slice());
        proof {
            let h = PakHeader {
                magic: [0x50u8, 0x41u8, 0x4Bu8, 0u8],
                version: 1,
                toc_offset: (HEADER_SIZE + payloads(all, level, threshold).len()) as u64,
                data_offset: HEADER_SIZE as u64,
                entry_count: all.len() as u32,
                flags: 0,
            };
            assert(h.magic@ =~= header.magic@);
            assert(header_bytes(h) == header_bytes(header));
            assert(out@ =~= header_bytes(header) + body@ + toc@ + string_table@);
        }
        Ok(out)
    }
}

proof fn lemma_size_bound_grows(assets: Seq<AssetView>, k: int)
    requires
        0 <= k <= assets.len(),
    ensures
        size_bound(assets.take(k)) <= size_bound(assets),
    decreases assets.len() - k,
{
    if k < assets.len() {
        lemma_size_bound_grows(assets, k + 1);
        assert(assets.take(k + 1).drop_last() =~= assets.take(k));
    } else {
        assert(assets.take(k) =~= assets);
    }
}

impl Default for PakBuilder {
    fn default() -> (r: Self)
        ensures
            r.wf(),
            r.spec_assets() == Seq::<AssetView>::empty(),
            r.spec_level() == 3,
            r.spec_threshold() == 512,
    {
        Self::new()
    }
}

} // verus!
