//! A bit-packed array that lives in a [`RawBytesContainer`], in memory or in
//! a mapped file, behind a header that names its layout.
//!
//! The storage holds twelve header bytes and then the packed elements:
//!
//! ```text
//! [magic: 4 bytes "PKBT"] [N: u32 little-endian] [len: u32 little-endian]
//! [packed elements]
//! ```

use crate::bitfield::{
    bytes_for, capacity_in_elements, clear_from, element, element_capacity, elements,
    lemma_field_past_end, lemma_pushed, lemma_replaced, lemma_same_region, locate,
    locate_from, max_value, max_value_of, or_field, pushed, read_field, replaced, write_field,
};
use crate::endian::{
    lemma_u32_le_bytes_of_read, lemma_u32_le_round_trip, read_u32_le, u32_le_at, u32_le_bytes,
    with_u32_le, write_u32_le,
};
use crate::raw_bytes::{resized, RawBytesContainer};
use crate::text::{append_decimal, decimal};
use vstd::prelude::*;
use vstd::string::StringExecFns;

pub mod flags;

verus! {

/// Number of bytes that the header takes.
pub const HEADER_SIZE: usize = 12;

/// What can go wrong with a [`PackedBitsContainer`].
#[derive(Debug, Clone, PartialEq, Eq, Structural)]
#[non_exhaustive]
pub enum PackedBitsError {
    /// The storage does not start with the magic tag.
    InvalidMagic,
    /// The header names another bit width than the one asked for.
    InvalidN { expected: usize, found: u32 },
    /// The storage is shorter than a header.
    StorageTooSmall,
    /// The storage is a read-only mapping.
    StorageReadOnly,
    /// The storage is a mapping and cannot change its length.
    ResizeFailed,
    /// The value does not fit in the bit width; holds the value and the width.
    ValueOverflow(u32, usize),
    /// The index is at or past the length; holds the index and the length.
    IndexOutOfBounds(usize, usize),
    /// The storage is too short for the element count that its header
    /// names; holds the count.
    InsufficientBytes(usize),
}

impl PackedBitsError {
    /// The text of the error.
    pub open spec fn message(&self) -> Seq<char> {
        match self {
            PackedBitsError::InvalidMagic => "invalid magic bytes in storage"@,
            PackedBitsError::InvalidN { expected, found } => "N mismatch: expected "@ + decimal(
                *expected as nat,
            ) + ", found "@ + decimal(*found as nat),
            PackedBitsError::StorageTooSmall => "storage too small for header"@,
            PackedBitsError::StorageReadOnly => "storage is read-only"@,
            PackedBitsError::ResizeFailed => "failed to resize storage"@,
            PackedBitsError::ValueOverflow(v, n) => "Value "@ + decimal(*v as nat)
                + " does not fit in "@ + decimal(*n as nat) + " bits"@,
            PackedBitsError::IndexOutOfBounds(i, len) => "Index "@ + decimal(*i as nat)
                + " is out of bounds for length "@ + decimal(*len as nat),
            PackedBitsError::InsufficientBytes(n) => "Insufficient bytes for "@ + decimal(
                *n as nat,
            ) + " elements"@,
        }
    }

    /// Returns the text of the error.
    pub fn to_string(&self) -> (r: String)
        ensures
            r@ == self.message(),
    {
        match self {
            PackedBitsError::InvalidMagic => String::from_str("invalid magic bytes in storage"),
            PackedBitsError::InvalidN { expected, found } => {
                let mut out = String::from_str("N mismatch: expected ");
                append_decimal(&mut out, *expected as u64);
                out.append(", found ");
                append_decimal(&mut out, *found as u64);
                out
            },
            PackedBitsError::StorageTooSmall => String::from_str("storage too small for header"),
            PackedBitsError::StorageReadOnly => String::from_str("storage is read-only"),
            PackedBitsError::ResizeFailed => String::from_str("failed to resize storage"),
            PackedBitsError::ValueOverflow(v, n) => {
                let mut out = String::from_str("Value ");
                append_decimal(&mut out, *v as u64);
                out.append(" does not fit in ");
                append_decimal(&mut out, *n as u64);
                out.append(" bits");
                out
            },
            PackedBitsError::IndexOutOfBounds(i, len) => {
                let mut out = String::from_str("Index ");
                append_decimal(&mut out, *i as u64);
                out.append(" is out of bounds for length ");
                append_decimal(&mut out, *len as u64);
                out
            },
            PackedBitsError::InsufficientBytes(n) => {
                let mut out = String::from_str("Insufficient bytes for ");
                append_decimal(&mut out, *n as u64);
                out.append(" elements");
                out
            },
        }
    }
}

/// The magic tag, the bytes of `PKBT`.
pub open spec fn magic() -> Seq<u8> {
    seq![0x50u8, 0x4Bu8, 0x42u8, 0x54u8]
}

/// The header of an array of `len` elements of `n` bits. Both numbers are
/// cut down to 32 bits.
pub open spec fn header_bytes(n: usize, len: usize) -> Seq<u8> {
    magic() + u32_le_bytes(n as u32) + u32_le_bytes(len as u32)
}

/// What a load for width `n` makes of `bytes`: the element count that the
/// header names, or the reason why the storage is refused. The length is
/// looked at first, then the magic tag, then the width, and last whether
/// the bytes after the header hold as many elements as the header names.
pub open spec fn parse_header(bytes: Seq<u8>, n: usize) -> Result<usize, PackedBitsError> {
    if bytes.len() < HEADER_SIZE {
        Err(PackedBitsError::StorageTooSmall)
    } else if bytes.subrange(0, 4) != magic() {
        Err(PackedBitsError::InvalidMagic)
    } else if u32_le_at(bytes, 4) as usize != n {
        Err(PackedBitsError::InvalidN { expected: n, found: u32_le_at(bytes, 4) })
    } else if HEADER_SIZE + bytes_for(u32_le_at(bytes, 8) as int, n) > bytes.len() {
        Err(PackedBitsError::InsufficientBytes(u32_le_at(bytes, 8) as usize))
    } else {
        Ok(u32_le_at(bytes, 8) as usize)
    }
}

/// `s` with the header of an array of `len` elements of `n` bits written
/// over its first twelve bytes.
pub open spec fn with_header(s: Seq<u8>, n: usize, len: usize) -> Seq<u8> {
    header_bytes(n, len) + s.subrange(HEADER_SIZE as int, s.len() as int)
}

/// `s` with the element count of its header set to `len`.
pub open spec fn with_len(s: Seq<u8>, len: usize) -> Seq<u8> {
    with_u32_le(s, 8, len as u32)
}

/// An array of `N`-bit values in a byte container, after a header.
#[derive(Debug)]
pub struct PackedBitsContainer<const N: usize> {
    storage: RawBytesContainer,
    len: usize,
}

impl<const N: usize> View for PackedBitsContainer<N> {
    type V = Seq<u32>;

    /// The elements, in order. Bytes that the storage lacks count as zero.
    open spec fn view(&self) -> Seq<u32> {
        elements(self.bytes(), HEADER_SIZE as int, N, self.spec_len())
    }
}

fn zeros(n: usize) -> (r: Vec<u8>)
    ensures
        r@.len() == n,
        forall|i: int| 0 <= i < n ==> r@[i] == 0,
{
    vec![0u8; n]
}

impl<const N: usize> PackedBitsContainer<N> {
    /// The bytes of the storage, header included.
    pub open spec fn bytes(&self) -> Seq<u8> {
        self.spec_storage()@
    }

    /// The number of elements.
    pub closed spec fn spec_len(&self) -> nat {
        self.len as nat
    }

    /// The storage as a value.
    pub closed spec fn spec_storage(&self) -> RawBytesContainer {
        self.storage
    }

    /// The storage starts with the header of this array.
    pub open spec fn in_sync(&self) -> bool {
        &&& self.bytes().len() >= HEADER_SIZE
        &&& self.bytes().subrange(0, HEADER_SIZE as int) == header_bytes(
            N,
            self.spec_len() as usize,
        )
    }

    /// The storage holds every element in full.
    pub open spec fn complete(&self) -> bool {
        HEADER_SIZE + bytes_for(self.spec_len() as int, N) <= self.bytes().len()
    }

    /// No bit is set in the storage past the last element.
    pub open spec fn clean(&self) -> bool {
        clear_from(self.bytes(), HEADER_SIZE as int, self.spec_len() * N)
    }

    /// Room, within `usize`, for `extra` more elements.
    pub open spec fn can_hold(&self, extra: nat) -> bool {
        &&& self.spec_len() + extra <= usize::MAX
        &&& HEADER_SIZE + bytes_for((self.spec_len() + extra) as int, N) <= usize::MAX
    }

    fn write_header(storage: &mut RawBytesContainer, len: usize) -> (r: Result<
        (),
        PackedBitsError,
    >)
        requires
            1 <= N <= 32,
        ensures
            final(storage).writable() == old(storage).writable(),
            final(storage).in_memory() == old(storage).in_memory(),
            !old(storage).writable() ==> r == Err::<(), PackedBitsError>(
                PackedBitsError::StorageReadOnly,
            ) && final(storage)@ == old(storage)@,
            old(storage).writable() && old(storage)@.len() < HEADER_SIZE ==> r == Err::<
                (),
                PackedBitsError,
            >(PackedBitsError::StorageTooSmall) && final(storage)@ == old(storage)@,
            old(storage).writable() && old(storage)@.len() >= HEADER_SIZE ==> r is Ok && final(storage)@ == with_header(old(storage)@, N, len),
    {
        match storage.as_slice_mut() {
            None => Err(PackedBitsError::StorageReadOnly),
            Some(slice) => {
                if slice.len() < HEADER_SIZE {
                    return Err(PackedBitsError::StorageTooSmall);
                }
                let ghost before = slice@;
                slice[0] = 0x50;
                slice[1] = 0x4B;
                slice[2] = 0x42;
                slice[3] = 0x54;
                write_u32_le(slice, 4, N as u32);
                write_u32_le(slice, 8, #[verifier::truncate] (len as u32));
                assert(slice@ =~= with_header(before, N, len));
                Ok(())
            },
        }
    }

    fn update_len_in_header(&mut self) -> (r: Result<(), PackedBitsError>)
        requires
            old(self).bytes().len() >= HEADER_SIZE,
        ensures
            final(self).spec_len() == old(self).spec_len(),
            final(self).spec_storage().writable() == old(self).spec_storage().writable(),
            final(self).spec_storage().in_memory() == old(self).spec_storage().in_memory(),
            !old(self).spec_storage().writable() ==> r == Err::<(), PackedBitsError>(
                PackedBitsError::StorageReadOnly,
            ) && final(self).bytes() == old(self).bytes(),
            old(self).spec_storage().writable() ==> r == Ok::<(), PackedBitsError>(()) && final(self).bytes() == with_len(old(self).bytes(), old(self).spec_len() as usize),
    {
        let len = self.len;
        match self.storage.as_slice_mut() {
            None => Err(PackedBitsError::StorageReadOnly),
            Some(slice) => {
                write_u32_le(slice, 8, #[verifier::truncate] (len as u32));
                Ok(())
            },
        }
    }

    /// Lengthens a storage that is shorter than `required_bytes` to that
    /// length, with zero bytes.
    fn ensure_capacity(&mut self, required_bytes: usize) -> (r: Result<(), PackedBitsError>)
        ensures
            final(self).spec_len() == old(self).spec_len(),
            final(self).spec_storage().writable() == old(self).spec_storage().writable(),
            final(self).spec_storage().in_memory() == old(self).spec_storage().in_memory(),
            old(self).bytes().len() < required_bytes && !old(self).spec_storage().in_memory()
                ==> r == Err::<(), PackedBitsError>(PackedBitsError::ResizeFailed) && final(self).bytes() == old(self).bytes(),
            !(old(self).bytes().len() < required_bytes && !old(self).spec_storage().in_memory())
                ==> r is Ok && final(self).bytes() == crate::bitfield::grown(
                old(self).bytes(),
                required_bytes as int,
            ),
    {
        if self.storage.len() < required_bytes {
            match self.storage.resize(required_bytes, 0) {
                Ok(()) => {},
                Err(_) => {
                    return Err(PackedBitsError::ResizeFailed);
                },
            }
            assert(self.storage@ =~= crate::bitfield::grown(
                old(self).storage@,
                required_bytes as int,
            ));
        }
        Ok(())
    }

    /// Creates an empty array in memory, with its header.
    pub fn new_in_memory() -> (r: Self)
        requires
            1 <= N <= 32,
        ensures
            r.spec_len() == 0,
            r.bytes() == header_bytes(N, 0),
            r.spec_storage().in_memory(),
            r.spec_storage().writable(),
            r.in_sync(),
            r.complete(),
            r.clean(),
    {
        let mut storage = RawBytesContainer::from_vec(zeros(HEADER_SIZE));
        let _ = Self::write_header(&mut storage, 0);
        assert(storage@ =~= header_bytes(N, 0));
        assert(storage@.subrange(0, HEADER_SIZE as int) =~= header_bytes(N, 0));
        assert(0 * N == 0);
        Self { storage, len: 0 }
    }

    /// Creates an empty array in memory whose storage already has the zero
    /// bytes of `capacity` elements after the header.
    pub fn with_capacity(capacity: usize) -> (r: Self)
        requires
            1 <= N <= 32,
            HEADER_SIZE + bytes_for(capacity as int, N) <= usize::MAX,
        ensures
            r.spec_len() == 0,
            r.bytes() == header_bytes(N, 0) + Seq::new(
                bytes_for(capacity as int, N) as nat,
                |i: int| 0u8,
            ),
            r.spec_storage().in_memory(),
            r.spec_storage().writable(),
            r.in_sync(),
            r.complete(),
            r.clean(),
    {
        let data_bytes = match crate::bitfield::byte_count(capacity, N) {
            Some(b) => b,
            None => 0,
        };
        let total_bytes = HEADER_SIZE + data_bytes;
        let mut storage = RawBytesContainer::from_vec(zeros(total_bytes));
        let _ = Self::write_header(&mut storage, 0);
        assert(storage@ =~= header_bytes(N, 0) + Seq::new(
            bytes_for(capacity as int, N) as nat,
            |i: int| 0u8,
        ));
        assert(storage@.subrange(0, HEADER_SIZE as int) =~= header_bytes(N, 0));
        assert(0 * N == 0);
        let r = Self { storage, len: 0 };
        assert(r.clean()) by {
            assert forall|k: int| HEADER_SIZE <= k < r.bytes().len() implies r.bytes()[k]
                == 0 by {}
            assert(forall|c: u64| 0 < c < 8 ==> 0u8 >> c == 0) by (bit_vector);
        }
        r
    }

    /// Takes a storage that starts with a header as an array. The header
    /// must carry the magic tag and name the width `N`, and the storage must
    /// hold as many elements as the header names; bytes after the last of
    /// them are kept and do not count. Bits that are set past the last
    /// element are not looked for: the load succeeds with them, the array
    /// is then not [`clean`](Self::clean), and a later `push` joins its
    /// value with them by OR.
    pub fn from_storage(storage: RawBytesContainer) -> (r: Result<Self, PackedBitsError>)
        requires
            1 <= N <= 32,
        ensures
            match parse_header(storage@, N) {
                Ok(len) => {
                    &&& r is Ok
                    &&& r->Ok_0.spec_storage() == storage
                    &&& r->Ok_0.bytes() == storage@
                    &&& r->Ok_0.spec_len() == len
                    &&& r->Ok_0.in_sync()
                    &&& r->Ok_0.complete()
                },
                Err(e) => r is Err && r->Err_0 == e,
            },
    {
        if storage.len() < HEADER_SIZE {
            return Err(PackedBitsError::StorageTooSmall);
        }
        let slice = storage.as_slice();
        if slice[0] != 0x50 || slice[1] != 0x4B || slice[2] != 0x42 || slice[3] != 0x54 {
            assert(slice@.subrange(0, 4) != magic()) by {
                let m = slice@.subrange(0, 4);
                assert(m[0] == slice@[0] && m[1] == slice@[1] && m[2] == slice@[2] && m[3]
                    == slice@[3]);
            }
            return Err(PackedBitsError::InvalidMagic);
        }
        assert(slice@.subrange(0, 4) =~= magic());
        let stored_n = read_u32_le(slice, 4);
        if stored_n as usize != N {
            return Err(PackedBitsError::InvalidN { expected: N, found: stored_n });
        }
        let stored_len = read_u32_le(slice, 8);
        let len = stored_len as usize;
        match crate::bitfield::byte_count(len, N) {
            Some(data_bytes) => {
                if slice.len() - HEADER_SIZE < data_bytes {
                    return Err(PackedBitsError::InsufficientBytes(len));
                }
            },
            None => {
                return Err(PackedBitsError::InsufficientBytes(len));
            },
        }
        proof {
            lemma_u32_le_bytes_of_read(slice@, 4);
            lemma_u32_le_bytes_of_read(slice@, 8);
            assert(slice@.subrange(0, HEADER_SIZE as int) =~= slice@.subrange(0, 4)
                + slice@.subrange(4, 8) + slice@.subrange(8, 12));
        }
        Ok(Self { storage, len })
    }

    /// Takes a storage as it is, with the element count that its whole
    /// length could hold at `N` bits each. No header is looked for; the
    /// first twelve bytes still do not count as elements.
    pub fn from_storage_raw(storage: RawBytesContainer) -> (r: Self)
        requires
            1 <= N <= 32,
        ensures
            r.spec_storage() == storage,
            r.bytes() == storage@,
            r.spec_len() == element_capacity(storage@.len() as usize, N),
    {
        let len_elements = capacity_in_elements(storage.len(), N);
        Self { storage, len: len_elements }
    }

    /// The storage, read-only.
    pub fn storage(&self) -> (r: &RawBytesContainer)
        ensures
            *r == self.spec_storage(),
            r@ == self.bytes(),
    {
        &self.storage
    }

    /// The storage, for writing. What the caller does to it is what the
    /// array holds afterwards; the element count stays.
    pub fn storage_mut(&mut self) -> (r: &mut RawBytesContainer)
        ensures
            *r == old(self).spec_storage(),
            r@ == old(self).bytes(),
            final(self).spec_storage() == *final(r),
            final(self).bytes() == final(r)@,
            final(self).spec_len() == old(self).spec_len(),
    {
        &mut self.storage
    }

    /// Returns the number of stored elements.
    pub fn len(&self) -> (r: usize)
        ensures
            r == self.spec_len(),
    {
        self.len
    }

    /// Returns `true` if the array has no elements.
    pub fn is_empty(&self) -> (r: bool)
        ensures
            r == (self.spec_len() == 0),
    {
        self.len == 0
    }

    /// Returns how many elements the storage has room for after the header.
    pub fn capacity(&self) -> (r: usize)
        requires
            1 <= N <= 32,
        ensures
            r == element_capacity(
                if self.bytes().len() >= HEADER_SIZE {
                    (self.bytes().len() - HEADER_SIZE) as usize
                } else {
                    0
                },
                N,
            ),
    {
        let total = self.storage.len();
        let data_bytes = if total >= HEADER_SIZE {
            total - HEADER_SIZE
        } else {
            0
        };
        capacity_in_elements(data_bytes, N)
    }

    /// Gets the value at `index`, or `None` at or past the length. Bytes
    /// that the storage lacks read as zero.
    pub fn get(&self, index: usize) -> (r: Option<u32>)
        requires
            1 <= N <= 32,
        ensures
            r == if index < self.spec_len() {
                Some(self@[index as int])
            } else {
                None
            },
    {
        if index >= self.len {
            return None;
        }
        let slice = self.storage.as_slice();
        let _ = slice.len();
        match locate_from(HEADER_SIZE, index, N) {
            Some((byte_pos, bit_offset)) => Some(read_field(slice, byte_pos, bit_offset, N)),
            None => {
                proof {
                    lemma_field_past_end(
                        slice@,
                        HEADER_SIZE + (index * N) / 8,
                        ((index * N) % 8) as u64,
                        N as u64,
                        0,
                    );
                }
                Some(0)
            },
        }
    }

    /// Appends `value`. A value that does not fit in `N` bits is refused.
    /// A storage that is too short is lengthened with zero bytes, which
    /// only an owned buffer can do; then the value is OR-ed into place and
    /// the header's element count is brought up to date. Where the call
    /// fails, the storage and the length stay as they were.
    pub fn push(&mut self, value: u32) -> (r: Result<(), PackedBitsError>)
        requires
            1 <= N <= 32,
            old(self).can_hold(1),
        ensures
            final(self).spec_storage().writable() == old(self).spec_storage().writable(),
            final(self).spec_storage().in_memory() == old(self).spec_storage().in_memory(),
            r == push_outcome(
                value,
                old(self).bytes().len(),
                old(self).spec_len(),
                N,
                old(self).spec_storage().in_memory(),
                old(self).spec_storage().writable(),
            ),
            r is Err ==> final(self).bytes() == old(self).bytes() && final(self).spec_len()
                == old(self).spec_len(),
            r is Ok ==> {
                &&& final(self).spec_len() == old(self).spec_len() + 1
                &&& final(self).bytes() == with_len(
                    pushed(
                        old(self).bytes(),
                        HEADER_SIZE as int,
                        N,
                        old(self).spec_len() as int,
                        value,
                    ),
                    (old(self).spec_len() + 1) as usize,
                )
                &&& final(self)@ == old(self)@.push(
                    element(old(self).bytes(), HEADER_SIZE as int, N, old(self).spec_len() as int)
                        | value,
                )
                &&& final(self).complete()
                &&& old(self).in_sync() ==> final(self).in_sync()
                &&& old(self).clean() ==> final(self).clean() && final(self)@ == old(self)@.push(
                    value,
                )
            },
    {
        let max_val = max_value_of(N);
        if value > max_val {
            return Err(PackedBitsError::ValueOverflow(value, N));
        }
        proof {
            self.storage.lemma_in_memory_is_writable();
            assert((self.len + 1) * N == self.len * N + N) by (nonlinear_arith);
            lemma_pushed_with_len(self.storage@, N, self.len as nat, value);
        }
        let (byte_idx, bit_offset) = locate(self.len, N);
        let byte_pos = HEADER_SIZE + byte_idx;
        let required_bytes = byte_pos + (N + bit_offset + 7) / 8;
        match self.ensure_capacity(required_bytes) {
            Ok(()) => {},
            Err(e) => {
                return Err(e);
            },
        }
        assert(self.storage@ =~= crate::bitfield::grown(
            old(self).storage@,
            HEADER_SIZE + bytes_for(old(self).len + 1, N),
        ));
        match self.storage.as_slice_mut() {
            None => {
                return Err(PackedBitsError::StorageReadOnly);
            },
            Some(slice) => {
                or_field(slice, byte_pos, bit_offset, N, value);
            },
        }
        self.len += 1;
        self.update_len_in_header()
    }

    /// Overwrites the value at `index` with `value`. An index at or past
    /// the length is refused, then a value that does not fit in `N` bits,
    /// then a storage that cannot be written. Where the call fails, the
    /// storage stays as it was. Where it succeeds, nothing else in the
    /// storage changes; bytes that the storage lacks are skipped.
    pub fn set(&mut self, index: usize, value: u32) -> (r: Result<(), PackedBitsError>)
        requires
            1 <= N <= 32,
        ensures
            final(self).spec_len() == old(self).spec_len(),
            final(self).spec_storage().writable() == old(self).spec_storage().writable(),
            final(self).spec_storage().in_memory() == old(self).spec_storage().in_memory(),
            r == set_outcome(
                index,
                value,
                old(self).spec_len(),
                N,
                old(self).spec_storage().writable(),
            ),
            r is Err ==> final(self).bytes() == old(self).bytes(),
            r is Ok ==> {
                &&& final(self).bytes() == replaced(
                    old(self).bytes(),
                    HEADER_SIZE as int,
                    N,
                    index as int,
                    value,
                )
                &&& old(self).in_sync() ==> final(self).in_sync()
                &&& old(self).complete() ==> final(self).complete() && final(self)@ == old(self)@.update(index as int, value) && (old(self).clean() ==> final(self).clean())
            },
    {
        if index >= self.len {
            return Err(PackedBitsError::IndexOutOfBounds(index, self.len));
        }
        let max_val = max_value_of(N);
        if value > max_val {
            return Err(PackedBitsError::ValueOverflow(value, N));
        }
        proof {
            if self.complete() {
                lemma_replaced(
                    self.storage@,
                    HEADER_SIZE as int,
                    N,
                    self.len as nat,
                    index as int,
                    value,
                );
            }
            assert(0 <= index * N) by (nonlinear_arith)
                requires
                    0 <= index,
                    0 <= N,
            ;
        }
        let located = locate_from(HEADER_SIZE, index, N);
        let ghost before = self.storage@;
        match self.storage.as_slice_mut() {
            None => {
                return Err(PackedBitsError::StorageReadOnly);
            },
            Some(slice) => {
                let _ = slice.len();
                match located {
                    Some((byte_pos, bit_offset)) => {
                        write_field(slice, byte_pos, bit_offset, N, value);
                    },
                    None => {
                        proof {
                            lemma_field_past_end(
                                slice@,
                                HEADER_SIZE + (index * N) / 8,
                                ((index * N) % 8) as u64,
                                N as u64,
                                value,
                            );
                        }
                    },
                }
            },
        }
        proof {
            let after = self.storage@;
            if old(self).in_sync() {
                assert(after.subrange(0, HEADER_SIZE as int) =~= before.subrange(
                    0,
                    HEADER_SIZE as int,
                ));
            }
        }
        Ok(())
    }

    /// Removes every element. An owned buffer is cut back to the header,
    /// whose element count becomes zero. A mapping cannot be cut: the call
    /// fails, and the storage and the length stay as they were.
    pub fn clear(&mut self) -> (r: Result<(), PackedBitsError>)
        requires
            1 <= N <= 32,
        ensures
            final(self).spec_storage().writable() == old(self).spec_storage().writable(),
            final(self).spec_storage().in_memory() == old(self).spec_storage().in_memory(),
            old(self).spec_storage().in_memory() ==> {
                &&& r is Ok
                &&& final(self).spec_len() == 0
                &&& final(self).bytes() == with_len(
                    resized(old(self).bytes(), HEADER_SIZE as nat, 0),
                    0,
                )
                &&& final(self).complete()
                &&& final(self).clean()
                &&& old(self).in_sync() ==> final(self).in_sync()
            },
            !old(self).spec_storage().in_memory() ==> {
                &&& r == Err::<(), PackedBitsError>(PackedBitsError::ResizeFailed)
                &&& final(self).bytes() == old(self).bytes()
                &&& final(self).spec_len() == old(self).spec_len()
            },
    {
        proof {
            self.storage.lemma_in_memory_is_writable();
            assert(0 * N == 0);
        }
        match self.storage.resize(HEADER_SIZE, 0) {
            Ok(()) => {},
            Err(_) => {
                return Err(PackedBitsError::ResizeFailed);
            },
        }
        self.len = 0;
        let r = self.update_len_in_header();
        proof {
            if old(self).in_sync() {
                assert(self.storage@.subrange(0, HEADER_SIZE as int) =~= header_bytes(N, 0));
            }
        }
        r
    }

    /// Returns a cursor over the elements, placed at the first one.
    pub fn iter(&self) -> (r: Iter<'_, N>)
        ensures
            r.source_bytes() == self.bytes(),
            r.source_len() == self.spec_len(),
            r.position() == 0,
    {
        Iter { container: self, index: 0 }
    }
}

/// How a `set` ends: the index must lie below the length, the value must
/// fit in `n` bits, and the storage must be writable, asked in that order.
pub open spec fn set_outcome(
    index: usize,
    value: u32,
    len: nat,
    n: usize,
    writable: bool,
) -> Result<(), PackedBitsError> {
    if index >= len {
        Err(PackedBitsError::IndexOutOfBounds(index, len as usize))
    } else if value > max_value(n) {
        Err(PackedBitsError::ValueOverflow(value, n))
    } else if !writable {
        Err(PackedBitsError::StorageReadOnly)
    } else {
        Ok(())
    }
}

/// How a `push` ends, by the value and the storage's length and kind: the
/// value must fit in `n` bits; a storage that is too short for one more
/// element must grow, which only an owned buffer can; one that is long
/// enough must still be writable.
pub open spec fn push_outcome(
    value: u32,
    storage_len: nat,
    len: nat,
    n: usize,
    in_memory: bool,
    writable: bool,
) -> Result<(), PackedBitsError> {
    if value > max_value(n) {
        Err(PackedBitsError::ValueOverflow(value, n))
    } else if storage_len < HEADER_SIZE + bytes_for(len as int + 1, n) && !in_memory {
        Err(PackedBitsError::ResizeFailed)
    } else if !writable {
        Err(PackedBitsError::StorageReadOnly)
    } else {
        Ok(())
    }
}

/// What appending does to a storage with a header: see
/// [`lemma_pushed`](crate::bitfield::lemma_pushed). The header's element
/// count changes with it, and nothing else of the header does.
pub proof fn lemma_pushed_with_len(s: Seq<u8>, n: usize, len: nat, v: u32)
    requires
        1 <= n <= 32,
        v <= max_value(n),
        len + 1 <= usize::MAX,
    ensures
        ({
            let t = with_len(pushed(s, HEADER_SIZE as int, n, len as int, v), (len + 1) as usize);
            &&& t.len() >= HEADER_SIZE + bytes_for(len as int + 1, n)
            &&& elements(t, HEADER_SIZE as int, n, len + 1) == elements(
                s,
                HEADER_SIZE as int,
                n,
                len,
            ).push(element(s, HEADER_SIZE as int, n, len as int) | v)
            &&& s.len() >= HEADER_SIZE && s.subrange(0, HEADER_SIZE as int) == header_bytes(
                n,
                len as usize,
            ) ==> t.subrange(0, HEADER_SIZE as int) == header_bytes(n, (len + 1) as usize)
            &&& clear_from(s, HEADER_SIZE as int, len * n) ==> clear_from(
                t,
                HEADER_SIZE as int,
                (len + 1) * n,
            ) && elements(t, HEADER_SIZE as int, n, len + 1) == elements(
                s,
                HEADER_SIZE as int,
                n,
                len,
            ).push(v)
        }),
{
    let base = HEADER_SIZE as int;
    let u = pushed(s, base, n, len as int, v);
    let t = with_len(u, (len + 1) as usize);
    lemma_pushed(s, base, n, len, v);
    assert forall|i: int| 0 <= i implies element(t, base, n, i) == element(u, base, n, i) by {
        lemma_same_region(t, u, base, n, i);
    }
    assert(elements(t, base, n, len + 1) =~= elements(u, base, n, len + 1));
    if s.len() >= HEADER_SIZE && s.subrange(0, base) == header_bytes(n, len as usize) {
        let h = s.subrange(0, base);
        assert forall|k: int| 0 <= k < 8 implies t[k] == header_bytes(n, (len + 1) as usize)[k] by {
            assert(h[k] == s[k]);
        }
        assert(t.subrange(0, base) =~= header_bytes(n, (len + 1) as usize));
    }
    if clear_from(s, base, len * n) {
        assert forall|k: int| base <= k < t.len() implies crate::bitfield::tail_ok(
            #[trigger] t[k],
            (len + 1) * n - 8 * (k - base),
        ) by {
            assert(t[k] == u[k]);
        }
    }
}

/// A cursor over the elements of a [`PackedBitsContainer`].
pub struct Iter<'a, const N: usize> {
    container: &'a PackedBitsContainer<N>,
    index: usize,
}

impl<'a, const N: usize> Iter<'a, N> {
    /// The bytes of the storage that the cursor walks.
    pub closed spec fn source_bytes(&self) -> Seq<u8> {
        self.container.bytes()
    }

    /// The number of elements of the array that the cursor walks.
    pub closed spec fn source_len(&self) -> nat {
        self.container.spec_len()
    }

    /// The index of the element that `next` returns.
    pub closed spec fn position(&self) -> nat {
        self.index as nat
    }

    /// The elements of the array that the cursor walks.
    pub open spec fn source(&self) -> Seq<u32> {
        elements(self.source_bytes(), HEADER_SIZE as int, N, self.source_len())
    }

    /// Returns the element under the cursor and moves on, or `None` once the
    /// cursor is past the last element.
    pub fn next(&mut self) -> (r: Option<u32>)
        requires
            1 <= N <= 32,
        ensures
            final(self).source_bytes() == old(self).source_bytes(),
            final(self).source_len() == old(self).source_len(),
            old(self).position() < old(self).source_len() ==> {
                &&& r == Some(old(self).source()[old(self).position() as int])
                &&& final(self).position() == old(self).position() + 1
            },
            old(self).position() >= old(self).source_len() ==> {
                &&& r is None
                &&& final(self).position() == old(self).position()
            },
    {
        if self.index >= self.container.len() {
            None
        } else {
            let val = self.container.get(self.index);
            self.index += 1;
            val
        }
    }

    /// Returns the number of elements left, as both bounds.
    pub fn size_hint(&self) -> (r: (usize, Option<usize>))
        ensures
            r.0 == if self.position() <= self.source_len() {
                self.source_len() - self.position()
            } else {
                0
            },
            r.1 == Some(r.0),
    {
        let len = self.container.len();
        let remaining = if self.index <= len {
            len - self.index
        } else {
            0
        };
        (remaining, Some(remaining))
    }

    /// Returns the elements from the cursor to the end, in order.
    pub fn collect(self) -> (r: Vec<u32>)
        requires
            1 <= N <= 32,
        ensures
            r@ == if self.position() <= self.source_len() {
                self.source().subrange(self.position() as int, self.source_len() as int)
            } else {
                Seq::<u32>::empty()
            },
    {
        let mut out: Vec<u32> = Vec::new();
        let len = self.container.len();
        let mut i = self.index;
        while i < len
            invariant
                1 <= N <= 32,
                len == self.container.spec_len(),
                self.index <= i <= len || (i == self.index && i > len),
                i <= len ==> out@ == self.container@.subrange(self.index as int, i as int),
                i > len ==> out@ == Seq::<u32>::empty(),
            decreases len - i,
        {
            match self.container.get(i) {
                Some(v) => {
                    out.push(v);
                },
                None => {},
            }
            i += 1;
            assert(out@ =~= self.container@.subrange(self.index as int, i as int));
        }
        out
    }
}

/// What was written is what a load finds: a storage that starts with the
/// header of an array of `len` elements of `n` bits, `len` within 32 bits,
/// and holds the bytes of those elements, loads for width `n` with that
/// count, and so with the same elements, and is refused for any other
/// width with the error that names both widths.
pub proof fn lemma_header_round_trip(bytes: Seq<u8>, n: usize, len: usize, other: usize)
    requires
        1 <= n <= 32,
        len <= u32::MAX,
        bytes.len() >= HEADER_SIZE + bytes_for(len as int, n),
        bytes.subrange(0, HEADER_SIZE as int) == header_bytes(n, len),
        other != n,
    ensures
        parse_header(bytes, n) == Ok::<usize, PackedBitsError>(len),
        elements(bytes, HEADER_SIZE as int, n, parse_header(bytes, n).unwrap() as nat) == elements(
            bytes,
            HEADER_SIZE as int,
            n,
            len as nat,
        ),
        parse_header(bytes, other) == Err::<usize, PackedBitsError>(
            PackedBitsError::InvalidN { expected: other, found: n as u32 },
        ),
{
    let h = bytes.subrange(0, HEADER_SIZE as int);
    assert forall|k: int| 0 <= k < 12 implies bytes[k] == header_bytes(n, len)[k] by {
        assert(h[k] == bytes[k]);
    }
    assert(bytes.subrange(0, 4) =~= magic());
    assert(bytes.subrange(4, 8) =~= u32_le_bytes(n as u32));
    assert(bytes.subrange(8, 12) =~= u32_le_bytes(len as u32));
    lemma_u32_le_round_trip(n as u32, bytes, 4);
    lemma_u32_le_round_trip(len as u32, bytes, 8);
}

} // verus!
