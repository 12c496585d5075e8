//! A container of equally sized structs, kept as their bytes in a
//! [`RawBytesContainer`], in memory or in a mapped file.

use crate::raw_bytes::{
    address_message, mapped_bytes, mapped_bytes_mut, size_message, ContainerError,
    RawBytesContainer,
};
use vstd::prelude::*;

verus! {

/// A container of structs of `elem_size` bytes each.
#[derive(Debug)]
pub struct PackedStructContainer {
    storage: RawBytesContainer,
    elem_size: usize,
}

impl PackedStructContainer {
    /// The bytes of the storage.
    pub open spec fn bytes(&self) -> Seq<u8> {
        self.spec_storage()@
    }

    /// The storage as a value.
    pub closed spec fn spec_storage(&self) -> RawBytesContainer {
        self.storage
    }

    /// The size of one struct in bytes.
    pub closed spec fn spec_elem_size(&self) -> nat {
        self.elem_size as nat
    }

    /// A struct takes at least one byte.
    pub open spec fn wf(&self) -> bool {
        self.spec_elem_size() > 0
    }

    /// The number of whole structs in the storage.
    pub open spec fn spec_len(&self) -> nat {
        self.bytes().len() / self.spec_elem_size()
    }

    /// The bytes of the struct at `index`.
    pub open spec fn element(&self, index: int) -> Seq<u8> {
        self.bytes().subrange(
            index * self.spec_elem_size(),
            index * self.spec_elem_size() + self.spec_elem_size(),
        )
    }

    /// Creates an empty container in memory for structs of `elem_size`
    /// bytes.
    pub fn new(elem_size: usize) -> (r: Self)
        requires
            elem_size > 0,
        ensures
            r.wf(),
            r.spec_elem_size() == elem_size,
            r.bytes() == Seq::<u8>::empty(),
            r.spec_storage().in_memory(),
    {
        Self { storage: RawBytesContainer::from_vec(Vec::new()), elem_size }
    }

    /// Creates an empty container in memory with room for `capacity`
    /// structs of `elem_size` bytes.
    pub fn with_capacity(capacity: usize, elem_size: usize) -> (r: Self)
        requires
            elem_size > 0,
            capacity * elem_size <= isize::MAX,
        ensures
            r.wf(),
            r.spec_elem_size() == elem_size,
            r.bytes() == Seq::<u8>::empty(),
            r.spec_storage().in_memory(),
    {
        let byte_capacity = capacity * elem_size;
        Self { storage: RawBytesContainer::from_vec(Vec::with_capacity(byte_capacity)), elem_size }
    }

    /// Creates a container in memory over a copy of the bytes of some
    /// structs of `elem_size` bytes each.
    pub fn from_slice(data: &[u8], elem_size: usize) -> (r: Self)
        requires
            elem_size > 0,
        ensures
            r.wf(),
            r.spec_elem_size() == elem_size,
            r.bytes() == data@,
            r.spec_storage().in_memory(),
    {
        Self { storage: RawBytesContainer::from_slice(data), elem_size }
    }

    /// Creates a container in memory over a copy of the bytes of some
    /// structs of `elem_size` bytes each.
    pub fn from_values(values: &[u8], elem_size: usize) -> (r: Self)
        requires
            elem_size > 0,
        ensures
            r.wf(),
            r.spec_elem_size() == elem_size,
            r.bytes() == values@,
            r.spec_storage().in_memory(),
    {
        Self::from_slice(values, elem_size)
    }

    /// Takes a read-only mapped region as a container of structs of
    /// `elem_size` bytes aligned to `elem_align`. A region whose length is
    /// no multiple of `elem_size`, or whose address is no multiple of
    /// `elem_align`, is refused, with the region given up.
    pub fn open_mmap_read(mmap: memmap2::Mmap, elem_size: usize, elem_align: usize) -> (r: Result<
        Self,
        ContainerError,
    >)
        requires
            elem_size > 0,
            elem_align > 0,
        ensures
            mapped_bytes(mmap).len() % (elem_size as nat) != 0 ==> r is Err
                && r->Err_0.is_alignment_error(
                size_message(mapped_bytes(mmap).len() as usize, elem_size),
            ),
            mapped_bytes(mmap).len() % (elem_size as nat) == 0 && elem_align == 1 ==> r is Ok,
            mapped_bytes(mmap).len() % (elem_size as nat) == 0 && r is Err
                ==> r->Err_0.is_alignment_error(address_message(elem_align)),
            r is Ok ==> {
                &&& r->Ok_0.wf()
                &&& r->Ok_0.spec_elem_size() == elem_size
                &&& r->Ok_0.bytes() == mapped_bytes(mmap)
                &&& r->Ok_0.spec_len() * elem_size == mapped_bytes(mmap).len()
                &&& !r->Ok_0.spec_storage().writable()
                &&& !r->Ok_0.spec_storage().in_memory()
            },
    {
        proof {
            let len = mapped_bytes(mmap).len() as int;
            let size = elem_size as int;
            assert(len % size == 0 ==> (len / size) * size == len) by (nonlinear_arith)
                requires
                    size > 0,
            ;
        }
        match RawBytesContainer::open_mmap_read(mmap, elem_size, elem_align) {
            Ok(storage) => Ok(Self { storage, elem_size }),
            Err(e) => Err(e),
        }
    }

    /// Takes a read-write mapped region as a container of structs of
    /// `elem_size` bytes aligned to `elem_align`. A region whose length is
    /// no multiple of `elem_size`, or whose address is no multiple of
    /// `elem_align`, is refused, with the region given up.
    pub fn open_mmap_rw(mmap: memmap2::MmapMut, elem_size: usize, elem_align: usize) -> (r: Result<
        Self,
        ContainerError,
    >)
        requires
            elem_size > 0,
            elem_align > 0,
        ensures
            mapped_bytes_mut(mmap).len() % (elem_size as nat) != 0 ==> r is Err
                && r->Err_0.is_alignment_error(
                size_message(mapped_bytes_mut(mmap).len() as usize, elem_size),
            ),
            mapped_bytes_mut(mmap).len() % (elem_size as nat) == 0 && elem_align == 1 ==> r is Ok,
            mapped_bytes_mut(mmap).len() % (elem_size as nat) == 0 && r is Err
                ==> r->Err_0.is_alignment_error(address_message(elem_align)),
            r is Ok ==> {
                &&& r->Ok_0.wf()
                &&& r->Ok_0.spec_elem_size() == elem_size
                &&& r->Ok_0.bytes() == mapped_bytes_mut(mmap)
                &&& r->Ok_0.spec_len() * elem_size == mapped_bytes_mut(mmap).len()
                &&& r->Ok_0.spec_storage().writable()
                &&& !r->Ok_0.spec_storage().in_memory()
            },
    {
        proof {
            let len = mapped_bytes_mut(mmap).len() as int;
            let size = elem_size as int;
            assert(len % size == 0 ==> (len / size) * size == len) by (nonlinear_arith)
                requires
                    size > 0,
            ;
        }
        match RawBytesContainer::open_mmap_rw(mmap, elem_size, elem_align) {
            Ok(storage) => Ok(Self { storage, elem_size }),
            Err(e) => Err(e),
        }
    }

    /// Returns the number of whole structs.
    pub fn len(&self) -> (r: usize)
        requires
            self.wf(),
        ensures
            r == self.spec_len(),
    {
        self.storage.len() / self.elem_size
    }

    /// Returns `true` if the container holds no whole struct.
    pub fn is_empty(&self) -> (r: bool)
        requires
            self.wf(),
        ensures
            r == (self.spec_len() == 0),
    {
        self.len() == 0
    }

    /// The bytes of all structs, read-only.
    pub fn as_slice(&self) -> (r: &[u8])
        ensures
            r@ == self.bytes(),
    {
        self.storage.as_slice()
    }

    /// The bytes of all structs, for writing; `None` where the storage is
    /// read-only.
    pub fn as_slice_mut(&mut self) -> (r: Option<&mut [u8]>)
        ensures
            final(self).spec_elem_size() == old(self).spec_elem_size(),
            final(self).spec_storage().writable() == old(self).spec_storage().writable(),
            final(self).spec_storage().in_memory() == old(self).spec_storage().in_memory(),
            old(self).spec_storage().writable() ==> r is Some && r.unwrap()@ == old(self).bytes()
                && final(self).bytes() == final(r.unwrap())@,
            !old(self).spec_storage().writable() ==> r is None && final(self).bytes() == old(self).bytes(),
    {
        self.storage.as_slice_mut()
    }

    /// The bytes of the struct at `index`, or `None` past the last whole
    /// struct.
    pub fn get(&self, index: usize) -> (r: Option<&[u8]>)
        requires
            self.wf(),
        ensures
            index < self.spec_len() ==> r is Some && r.unwrap()@ == self.element(index as int),
            index >= self.spec_len() ==> r is None,
    {
        let slice = self.storage.as_slice();
        let count = slice.len() / self.elem_size;
        if index >= count {
            return None;
        }
        proof {
            assert(index * self.elem_size + self.elem_size <= slice@.len()) by (nonlinear_arith)
                requires
                    self.elem_size > 0,
                    index < slice@.len() / (self.elem_size as nat),
            ;
        }
        let start = index * self.elem_size;
        Some(vstd::slice::slice_subrange(slice, start, start + self.elem_size))
    }

    /// The bytes of the struct at `index`, for writing; `None` past the
    /// last whole struct and where the storage is read-only. What is
    /// written replaces the bytes of that struct and no others.
    pub fn get_mut(&mut self, index: usize) -> (r: Option<&mut [u8]>)
        requires
            old(self).wf(),
        ensures
            final(self).spec_elem_size() == old(self).spec_elem_size(),
            final(self).spec_storage().writable() == old(self).spec_storage().writable(),
            final(self).spec_storage().in_memory() == old(self).spec_storage().in_memory(),
            old(self).spec_storage().writable() && index < old(self).spec_len() ==> {
                &&& r is Some
                &&& r.unwrap()@ == old(self).element(index as int)
                &&& final(self).bytes() == old(self).bytes().subrange(
                    0,
                    index * old(self).spec_elem_size(),
                ) + final(r.unwrap())@ + old(self).bytes().subrange(
                    index * old(self).spec_elem_size() + old(self).spec_elem_size(),
                    old(self).bytes().len() as int,
                )
            },
            !(old(self).spec_storage().writable() && index < old(self).spec_len()) ==> r is None
                && final(self).bytes() == old(self).bytes(),
    {
        let size = self.elem_size;
        let ghost before = self.storage@;
        match self.storage.as_slice_mut() {
            None => None,
            Some(whole) => {
                let count = whole.len() / size;
                if index >= count {
                    return None;
                }
                proof {
                    assert(0 <= index * size && index * size + size <= whole@.len())
                        by (nonlinear_arith)
                        requires
                            size > 0,
                            0 <= index < whole@.len() / (size as nat),
                    ;
                }
                let start = index * size;
                let (left, rest) = whole.split_at_mut(start);
                let (mid, right) = rest.split_at_mut(size);
                proof {
                    assert(left@ =~= before.subrange(0, start as int));
                    assert(mid@ =~= before.subrange(start as int, start + size));
                    assert(right@ =~= before.subrange(start + size, before.len() as int));
                }
                Some(mid)
            },
        }
    }

    /// Returns a cursor over the indices of the structs, from the first.
    pub fn iter(&self) -> (r: StructIter<'_>)
        requires
            self.wf(),
        ensures
            r.wf(),
            r.source() == *self,
            r.position() == 0,
    {
        StructIter { container: self, index: 0 }
    }

    /// Appends the bytes of some structs to an owned buffer.
    pub fn append(&mut self, new: &[u8]) -> (r: Result<(), ContainerError>)
        ensures
            final(self).spec_elem_size() == old(self).spec_elem_size(),
            final(self).spec_storage().writable() == old(self).spec_storage().writable(),
            final(self).spec_storage().in_memory() == old(self).spec_storage().in_memory(),
            old(self).spec_storage().in_memory() ==> r is Ok && final(self).bytes() == old(self).bytes() + new@,
            !old(self).spec_storage().in_memory() ==> r is Err && r->Err_0.is_unsupported(
                "Append not supported on mmap storage",
            ) && final(self).bytes() == old(self).bytes(),
    {
        self.storage.append(new)
    }

    /// Appends the bytes of one struct to an owned buffer.
    pub fn push(&mut self, value: &[u8]) -> (r: Result<(), ContainerError>)
        ensures
            final(self).spec_elem_size() == old(self).spec_elem_size(),
            final(self).spec_storage().writable() == old(self).spec_storage().writable(),
            final(self).spec_storage().in_memory() == old(self).spec_storage().in_memory(),
            old(self).spec_storage().in_memory() ==> r is Ok && final(self).bytes() == old(self).bytes() + value@,
            !old(self).spec_storage().in_memory() ==> r is Err && r->Err_0.is_unsupported(
                "Append not supported on mmap storage",
            ) && final(self).bytes() == old(self).bytes(),
    {
        self.append(value)
    }

    /// Appends the bytes of some structs to an owned buffer.
    pub fn extend(&mut self, values: &[u8]) -> (r: Result<(), ContainerError>)
        ensures
            final(self).spec_elem_size() == old(self).spec_elem_size(),
            final(self).spec_storage().writable() == old(self).spec_storage().writable(),
            final(self).spec_storage().in_memory() == old(self).spec_storage().in_memory(),
            old(self).spec_storage().in_memory() ==> r is Ok && final(self).bytes() == old(self).bytes() + values@,
            !old(self).spec_storage().in_memory() ==> r is Err && r->Err_0.is_unsupported(
                "Append not supported on mmap storage",
            ) && final(self).bytes() == old(self).bytes(),
    {
        self.append(values)
    }

    /// Removes every struct from an owned buffer.
    pub fn clear(&mut self) -> (r: Result<(), ContainerError>)
        ensures
            final(self).spec_elem_size() == old(self).spec_elem_size(),
            final(self).spec_storage().writable() == old(self).spec_storage().writable(),
            final(self).spec_storage().in_memory() == old(self).spec_storage().in_memory(),
            old(self).spec_storage().in_memory() ==> r is Ok && final(self).bytes() == Seq::<
                u8,
            >::empty(),
            !old(self).spec_storage().in_memory() ==> r is Err && r->Err_0.is_unsupported(
                "Resize not supported on mmap storage",
            ) && final(self).bytes() == old(self).bytes(),
    {
        let r = self.storage.resize(0, 0);
        assert(old(self).storage.in_memory() ==> self.storage@ =~= Seq::<u8>::empty());
        r
    }

    /// Writes the changes of a read-write mapping back to its file.
    pub fn flush(&self) -> (r: Result<(), ContainerError>)
        ensures
            self.spec_storage().in_memory() || !self.spec_storage().writable() ==> r is Err
                && r->Err_0.is_unsupported("Flush only supported on mmap RW"),
            !self.spec_storage().in_memory() && self.spec_storage().writable() ==> r is Ok
                || r->Err_0 is Io,
    {
        self.storage.flush()
    }

    /// The storage, read-only.
    pub fn storage(&self) -> (r: &RawBytesContainer)
        ensures
            *r == self.spec_storage(),
            r@ == self.bytes(),
    {
        &self.storage
    }

    /// The storage, for writing. What the caller does to it is what the
    /// container holds afterwards; the size of a struct stays.
    pub fn storage_mut(&mut self) -> (r: &mut RawBytesContainer)
        ensures
            *r == old(self).spec_storage(),
            r@ == old(self).bytes(),
            final(self).spec_storage() == *final(r),
            final(self).bytes() == final(r)@,
            final(self).spec_elem_size() == old(self).spec_elem_size(),
    {
        &mut self.storage
    }
}

/// A cursor over the structs of a [`PackedStructContainer`].
pub struct StructIter<'a> {
    container: &'a PackedStructContainer,
    index: usize,
}

impl<'a> StructIter<'a> {
    /// The container that the cursor walks.
    pub closed spec fn source(&self) -> PackedStructContainer {
        *self.container
    }

    /// The index of the struct that `next` returns.
    pub closed spec fn position(&self) -> nat {
        self.index as nat
    }

    /// The container is well-formed.
    pub closed spec fn wf(&self) -> bool {
        self.container.wf()
    }

    /// Returns the bytes of the struct under the cursor and moves on, or
    /// `None` once every struct has been returned.
    pub fn next(&mut self) -> (r: Option<&'a [u8]>)
        requires
            old(self).wf(),
        ensures
            final(self).wf(),
            final(self).source() == old(self).source(),
            old(self).position() < old(self).source().spec_len() ==> r is Some && r.unwrap()@
                == old(self).source().element(old(self).position() as int) && final(self).position() == old(self).position() + 1,
            old(self).position() >= old(self).source().spec_len() ==> r is None && final(self).position() == old(self).position(),
    {
        let container: &'a PackedStructContainer = self.container;
        if self.index >= container.len() {
            return None;
        }
        let bytes = container.get(self.index);
        self.index += 1;
        bytes
    }
}

} // verus!
