use super::format::toc::AssetType;
use vstd::prelude::*;

verus! {

/// An asset that is to go into an archive: its name, its bytes and its
/// kind.
pub struct AssetEntry {
    pub name: String,
    pub data: Vec<u8>,
    pub asset_type: AssetType,
}

impl AssetEntry {
    /// Creates an asset from its name, its bytes and its kind.
    pub fn new(name: &str, data: Vec<u8>, asset_type: AssetType) -> (r: Self)
        ensures
            r.name@ == name@,
            r.data@ == data@,
            r.asset_type == asset_type,
    {
        Self { name: name.to_owned(), data, asset_type }
    }

    /// Returns the number of bytes of the asset.
    pub fn size(&self) -> (r: usize)
        ensures
            r == self.data@.len(),
    {
        self.data.len()
    }
}

} // verus!
