//! The three places in which a container keeps its bytes, and the calls into
//! `memmap2` that read and write a mapped region.

use vstd::prelude::*;

verus! {

#[verifier::external_type_specification]
#[verifier::external_body]
pub struct ExMmap(memmap2::Mmap);

#[verifier::external_type_specification]
#[verifier::external_body]
pub struct ExMmapMut(memmap2::MmapMut);

#[verifier::external_type_specification]
#[verifier::external_body]
pub struct ExIoError(std::io::Error);

/// The bytes of a read-only mapped region, in order.
pub uninterp spec fn mapped_bytes(m: memmap2::Mmap) -> Seq<u8>;

/// The bytes of a writable mapped region, in order.
pub uninterp spec fn mapped_bytes_mut(m: memmap2::MmapMut) -> Seq<u8>;

/// Where a container keeps its bytes.
#[derive(Debug)]
pub enum Storage {
    /// An owned, growable buffer.
    InMemory(Vec<u8>),
    /// A read-only view of a file's bytes.
    MmapRO(memmap2::Mmap),
    /// A read-write view of a file's bytes.
    MmapRW(memmap2::MmapMut),
}

impl View for Storage {
    type V = Seq<u8>;

    /// The bytes held, whatever holds them.
    open spec fn view(&self) -> Seq<u8> {
        match self {
            Storage::InMemory(v) => v@,
            Storage::MmapRO(m) => mapped_bytes(*m),
            Storage::MmapRW(m) => mapped_bytes_mut(*m),
        }
    }
}

/// `<memmap2::Mmap as Deref>::deref`: the mapped region as a byte slice. The
/// slice is the whole region, from its first byte to its last.
#[verifier::external_body]
pub(crate) fn mmap_slice(m: &memmap2::Mmap) -> (r: &[u8])
    ensures
        r@ == mapped_bytes(*m),
{
    &m[..]
}

/// `<memmap2::MmapMut as Deref>::deref`: the mapped region as a byte slice.
/// The slice is the whole region, from its first byte to its last.
#[verifier::external_body]
pub(crate) fn mmap_mut_slice(m: &memmap2::MmapMut) -> (r: &[u8])
    ensures
        r@ == mapped_bytes_mut(*m),
{
    &m[..]
}

/// `<memmap2::MmapMut as DerefMut>::deref_mut`: the mapped region as a
/// mutable byte slice. The slice is the region itself, so what is written
/// through it is what the region holds afterwards.
#[verifier::external_body]
pub(crate) fn mmap_mut_slice_mut(m: &mut memmap2::MmapMut) -> (r: &mut [u8])
    ensures
        r@ == mapped_bytes_mut(*old(m)),
        mapped_bytes_mut(*final(m)) == final(r)@,
{
    &mut m[..]
}

/// `memmap2::MmapMut::flush`: writes the region's changes back to the file
/// and waits for that. Whether it succeeds is the operating system's matter;
/// the bytes of the region stay as they are either way.
#[verifier::external_body]
pub(crate) fn mmap_mut_flush(m: &memmap2::MmapMut) -> (r: Result<(), std::io::Error>) {
    m.flush()
}

/// The address at which a read-only region is mapped (`as_ptr` of its
/// slice). It differs from run to run.
#[verifier::external_body]
pub(crate) fn mmap_address(m: &memmap2::Mmap) -> (r: usize) {
    m.as_ptr() as usize
}

/// The address at which a writable region is mapped (`as_ptr` of its slice).
/// It differs from run to run.
#[verifier::external_body]
pub(crate) fn mmap_mut_address(m: &memmap2::MmapMut) -> (r: usize) {
    m.as_ptr() as usize
}

} // verus!
