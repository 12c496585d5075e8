//! A byte container that is backed either by an owned buffer or by a mapped
//! file region, read-only or read-write, behind one interface.
//!
//! An owned buffer can grow and shrink. A mapped region keeps its length,
//! and a read-only one refuses every change.

use crate::foreign::{vec_capacity, vec_shrink_to_fit};
use vstd::prelude::*;

mod error;
mod storage;

pub use error::{address_message, size_message, ContainerError};
pub use storage::{mapped_bytes, mapped_bytes_mut, Storage};

use error::{address_error, size_error};
use storage::{
    mmap_address, mmap_mut_address, mmap_mut_flush, mmap_mut_slice, mmap_mut_slice_mut,
    mmap_slice,
};

verus! {

/// A container of bytes over one of the three kinds of [`Storage`].
#[derive(Debug)]
pub struct RawBytesContainer {
    storage: Storage,
}

/// Why a mapped region of `len` bytes at address `addr` does not suit
/// elements of `size` bytes that must lie at multiples of `align`, if it
/// does not: the length is checked first, then the address.
pub open spec fn layout_fault(len: usize, addr: usize, size: usize, align: usize) -> Option<
    Seq<char>,
> {
    if len % size != 0 {
        Some(size_message(len, size))
    } else if addr % align != 0 {
        Some(address_message(align))
    } else {
        None
    }
}

/// Checks that a mapped region of `len` bytes at address `addr` can be read
/// as an array of elements of `size` bytes aligned to `align`.
pub fn validate_alignment(len: usize, addr: usize, size: usize, align: usize) -> (r: Result<
    (),
    ContainerError,
>)
    requires
        size > 0,
        align > 0,
    ensures
        match layout_fault(len, addr, size, align) {
            Some(text) => r is Err && r->Err_0.is_alignment_error(text),
            None => r is Ok,
        },
{
    if len % size != 0 {
        return Err(size_error(len, size));
    }
    if addr % align != 0 {
        return Err(address_error(align));
    }
    Ok(())
}

impl View for RawBytesContainer {
    type V = Seq<u8>;

    /// The bytes held.
    closed spec fn view(&self) -> Seq<u8> {
        self.storage@
    }
}

impl RawBytesContainer {
    /// The bytes live in an owned buffer.
    pub closed spec fn in_memory(&self) -> bool {
        self.storage is InMemory
    }

    /// The bytes can be changed: the storage is no read-only mapping.
    pub closed spec fn writable(&self) -> bool {
        !(self.storage is MmapRO)
    }

    /// An owned buffer can always be written.
    pub proof fn lemma_in_memory_is_writable(&self)
        ensures
            self.in_memory() ==> self.writable(),
    {
    }

    /// Creates a container over a copy of `data`, in memory.
    pub fn from_slice(data: &[u8]) -> (r: Self)
        ensures
            r@ == data@,
            r.in_memory(),
            r.writable(),
    {
        Self { storage: Storage::InMemory(vstd::slice::slice_to_vec(data)) }
    }

    /// The container in memory that owns `data`.
    pub closed spec fn owning(data: Vec<u8>) -> Self {
        RawBytesContainer { storage: Storage::InMemory(data) }
    }

    /// Creates a container that owns `data`, in memory.
    pub fn from_vec(data: Vec<u8>) -> (r: Self)
        ensures
            r == Self::owning(data),
            r@ == data@,
            r.in_memory(),
            r.writable(),
    {
        Self { storage: Storage::InMemory(data) }
    }

    /// Takes a read-only mapped region as a container of elements of `size`
    /// bytes aligned to `align`. A region whose length or address does not
    /// suit such elements is refused, with the region given up.
    pub fn open_mmap_read(mmap: memmap2::Mmap, size: usize, align: usize) -> (r: Result<
        Self,
        ContainerError,
    >)
        requires
            size > 0,
            align > 0,
        ensures
            mapped_bytes(mmap).len() % (size as nat) != 0 ==> r is Err
                && r->Err_0.is_alignment_error(
                size_message(mapped_bytes(mmap).len() as usize, size),
            ),
            mapped_bytes(mmap).len() % (size as nat) == 0 && align == 1 ==> r is Ok,
            mapped_bytes(mmap).len() % (size as nat) == 0 && r is Err
                ==> r->Err_0.is_alignment_error(address_message(align)),
            r is Ok ==> r->Ok_0@ == mapped_bytes(mmap) && !r->Ok_0.writable()
                && !r->Ok_0.in_memory(),
    {
        let len = mmap_slice(&mmap).len();
        let addr = mmap_address(&mmap);
        match validate_alignment(len, addr, size, align) {
            Ok(()) => Ok(Self { storage: Storage::MmapRO(mmap) }),
            Err(e) => Err(e),
        }
    }

    /// Takes a read-write mapped region as a container of elements of `size`
    /// bytes aligned to `align`. A region whose length or address does not
    /// suit such elements is refused, with the region given up.
    pub fn open_mmap_rw(mmap: memmap2::MmapMut, size: usize, align: usize) -> (r: Result<
        Self,
        ContainerError,
    >)
        requires
            size > 0,
            align > 0,
        ensures
            mapped_bytes_mut(mmap).len() % (size as nat) != 0 ==> r is Err
                && r->Err_0.is_alignment_error(
                size_message(mapped_bytes_mut(mmap).len() as usize, size),
            ),
            mapped_bytes_mut(mmap).len() % (size as nat) == 0 && align == 1 ==> r is Ok,
            mapped_bytes_mut(mmap).len() % (size as nat) == 0 && r is Err
                ==> r->Err_0.is_alignment_error(address_message(align)),
            r is Ok ==> r->Ok_0@ == mapped_bytes_mut(mmap) && r->Ok_0.writable()
                && !r->Ok_0.in_memory(),
    {
        let len = mmap_mut_slice(&mmap).len();
        let addr = mmap_mut_address(&mmap);
        match validate_alignment(len, addr, size, align) {
            Ok(()) => Ok(Self { storage: Storage::MmapRW(mmap) }),
            Err(e) => Err(e),
        }
    }

    /// Tells whether the bytes can be changed.
    pub fn is_mutable(&self) -> (r: bool)
        ensures
            r == self.writable(),
    {
        match &self.storage {
            Storage::InMemory(_) => true,
            Storage::MmapRW(_) => true,
            Storage::MmapRO(_) => false,
        }
    }

    /// The bytes, read-only.
    pub fn as_slice(&self) -> (r: &[u8])
        ensures
            r@ == self@,
    {
        match &self.storage {
            Storage::InMemory(vec) => vec.as_slice(),
            Storage::MmapRO(mmap) => mmap_slice(mmap),
            Storage::MmapRW(mmap) => mmap_mut_slice(mmap),
        }
    }

    /// The bytes, for writing; `None` where the storage is read-only.
    pub fn as_slice_mut(&mut self) -> (r: Option<&mut [u8]>)
        ensures
            old(self).writable() ==> r is Some && r.unwrap()@ == old(self)@ && final(self)@
                == final(r.unwrap())@,
            !old(self).writable() ==> r is None && final(self)@ == old(self)@,
            final(self).writable() == old(self).writable(),
            final(self).in_memory() == old(self).in_memory(),
    {
        match &mut self.storage {
            Storage::InMemory(vec) => Some(vec.as_mut_slice()),
            Storage::MmapRW(mmap) => Some(mmap_mut_slice_mut(mmap)),
            Storage::MmapRO(_) => None,
        }
    }

    /// Returns the number of bytes.
    pub fn len(&self) -> (r: usize)
        ensures
            r == self@.len(),
    {
        self.as_slice().len()
    }

    /// Returns `true` if there are no bytes.
    pub fn is_empty(&self) -> (r: bool)
        ensures
            r == (self@.len() == 0),
    {
        self.len() == 0
    }

    /// The bytes, for writing; an error where the storage is read-only.
    pub fn as_slice_mut_checked(&mut self) -> (r: Result<&mut [u8], ContainerError>)
        ensures
            old(self).writable() ==> r is Ok && r.unwrap()@ == old(self)@ && final(self)@
                == final(r.unwrap())@,
            !old(self).writable() ==> r is Err && r->Err_0.is_unsupported(
                "Cannot get mutable reference to read-only storage",
            ) && final(self)@ == old(self)@,
            final(self).writable() == old(self).writable(),
            final(self).in_memory() == old(self).in_memory(),
    {
        match self.as_slice_mut() {
            Some(s) => Ok(s),
            None => Err(
                ContainerError::UnsupportedOperation(
                    "Cannot get mutable reference to read-only storage",
                ),
            ),
        }
    }

    /// Appends `new` to an owned buffer; a mapped region cannot grow.
    pub fn append(&mut self, new: &[u8]) -> (r: Result<(), ContainerError>)
        ensures
            old(self).in_memory() ==> r is Ok && final(self)@ == old(self)@ + new@,
            !old(self).in_memory() ==> r is Err && r->Err_0.is_unsupported(
                "Append not supported on mmap storage",
            ) && final(self)@ == old(self)@,
            final(self).writable() == old(self).writable(),
            final(self).in_memory() == old(self).in_memory(),
    {
        match &mut self.storage {
            Storage::InMemory(vec) => {
                let ghost before = vec@;
                vec.extend_from_slice(new);
                assert(vec@ =~= before + new@);
                Ok(())
            },
            _ => Err(ContainerError::UnsupportedOperation("Append not supported on mmap storage")),
        }
    }

    /// Cuts an owned buffer down to `new_len` bytes, or lengthens it to that
    /// with copies of `value`; a mapped region keeps its length.
    pub fn resize(&mut self, new_len: usize, value: u8) -> (r: Result<(), ContainerError>)
        ensures
            old(self).in_memory() ==> r is Ok && final(self)@ == resized(
                old(self)@,
                new_len as nat,
                value,
            ),
            !old(self).in_memory() ==> r is Err && r->Err_0.is_unsupported(
                "Resize not supported on mmap storage",
            ) && final(self)@ == old(self)@,
            final(self).writable() == old(self).writable(),
            final(self).in_memory() == old(self).in_memory(),
    {
        match &mut self.storage {
            Storage::InMemory(vec) => {
                let ghost before = vec@;
                vec.resize(new_len, value);
                assert(vec@ =~= resized(before, new_len as nat, value));
                Ok(())
            },
            _ => Err(ContainerError::UnsupportedOperation("Resize not supported on mmap storage")),
        }
    }

    /// Writes the changes of a read-write mapping back to its file. The
    /// other kinds of storage have nothing to flush and say so.
    pub fn flush(&self) -> (r: Result<(), ContainerError>)
        ensures
            self.in_memory() || !self.writable() ==> r is Err && r->Err_0.is_unsupported(
                "Flush only supported on mmap RW",
            ),
            !self.in_memory() && self.writable() ==> r is Ok || r->Err_0 is Io,
    {
        match &self.storage {
            Storage::MmapRW(mmap) => match mmap_mut_flush(mmap) {
                Ok(()) => Ok(()),
                Err(e) => Err(ContainerError::Io(e)),
            },
            _ => Err(ContainerError::UnsupportedOperation("Flush only supported on mmap RW")),
        }
    }

    /// Returns how many bytes an owned buffer can hold without reallocating;
    /// `None` for a mapping.
    pub fn capacity(&self) -> (r: Option<usize>)
        ensures
            self.in_memory() ==> r is Some && r.unwrap() >= self@.len(),
            !self.in_memory() ==> r is None,
    {
        match &self.storage {
            Storage::InMemory(vec) => Some(vec_capacity(vec)),
            _ => None,
        }
    }

    /// Gives the unused capacity of an owned buffer back; a mapping has none.
    pub fn shrink_to_fit(&mut self) -> (r: Result<(), ContainerError>)
        ensures
            final(self)@ == old(self)@,
            old(self).in_memory() ==> r is Ok,
            !old(self).in_memory() ==> r is Err && r->Err_0.is_unsupported(
                "Shrink only supported on in-memory storage",
            ),
            final(self).writable() == old(self).writable(),
            final(self).in_memory() == old(self).in_memory(),
    {
        match &mut self.storage {
            Storage::InMemory(vec) => {
                vec_shrink_to_fit(vec);
                Ok(())
            },
            _ => Err(
                ContainerError::UnsupportedOperation("Shrink only supported on in-memory storage"),
            ),
        }
    }

    /// The byte at `index`, or `None` past the end.
    pub fn get(&self, index: usize) -> (r: Option<&u8>)
        ensures
            index < self@.len() ==> r == Some(&self@[index as int]),
            index >= self@.len() ==> r is None,
    {
        let s = self.as_slice();
        if index < s.len() {
            Some(&s[index])
        } else {
            None
        }
    }

    /// The byte at `index`, for writing; `None` past the end and where the
    /// storage is read-only.
    pub fn get_mut(&mut self, index: usize) -> (r: Option<&mut u8>)
        ensures
            old(self).writable() && index < old(self)@.len() ==> r is Some && *r.unwrap() == old(self)@[index as int] && final(self)@ == old(self)@.update(
                index as int,
                *final(r.unwrap()),
            ),
            !(old(self).writable() && index < old(self)@.len()) ==> r is None && final(self)@
                == old(self)@,
            final(self).writable() == old(self).writable(),
            final(self).in_memory() == old(self).in_memory(),
    {
        match self.as_slice_mut() {
            Some(s) => {
                if index < s.len() {
                    Some(&mut s[index])
                } else {
                    None
                }
            },
            None => None,
        }
    }
}

impl RawBytesContainer {
    /// The byte at `index`, for writing; an error past the end and where
    /// the storage is read-only.
    pub fn get_mut_checked(&mut self, index: usize) -> (r: Result<&mut u8, ContainerError>)
        ensures
            old(self).writable() && index < old(self)@.len() ==> r is Ok && *r.unwrap() == old(self)@[index as int] && final(self)@ == old(self)@.update(
                index as int,
                *final(r.unwrap()),
            ),
            !(old(self).writable() && index < old(self)@.len()) ==> r is Err
                && r->Err_0.is_unsupported("Index out of bounds or read-only") && final(self)@
                == old(self)@,
            final(self).writable() == old(self).writable(),
            final(self).in_memory() == old(self).in_memory(),
    {
        match self.get_mut(index) {
            Some(b) => Ok(b),
            None => Err(ContainerError::UnsupportedOperation("Index out of bounds or read-only")),
        }
    }
}

impl Default for RawBytesContainer {
    /// An empty container in memory.
    fn default() -> (r: Self)
        ensures
            r@ == Seq::<u8>::empty(),
            r.in_memory(),
            r.writable(),
    {
        Self { storage: Storage::InMemory(Vec::new()) }
    }
}

impl From<Vec<u8>> for RawBytesContainer {
    fn from(data: Vec<u8>) -> (r: RawBytesContainer)
        ensures
            r == RawBytesContainer::owning(data),
            r@ == data@,
            r.in_memory(),
            r.writable(),
    {
        Self::from_vec(data)
    }
}

impl vstd::std_specs::convert::FromSpecImpl<Vec<u8>> for RawBytesContainer {
    open spec fn obeys_from_spec() -> bool {
        true
    }

    open spec fn from_spec(data: Vec<u8>) -> RawBytesContainer {
        RawBytesContainer::owning(data)
    }
}

/// `s` cut down to `n` bytes, or lengthened to `n` with copies of `v`.
pub open spec fn resized(s: Seq<u8>, n: nat, v: u8) -> Seq<u8> {
    if n <= s.len() {
        s.subrange(0, n as int)
    } else {
        s + Seq::new((n - s.len()) as nat, |i: int| v)
    }
}

} // verus!
