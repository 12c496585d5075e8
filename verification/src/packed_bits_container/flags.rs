//! Sets of bit flags, one `N`-bit mask per element, in a
//! [`PackedBitsContainer`].

use super::{PackedBitsContainer, PackedBitsError, HEADER_SIZE};
use crate::bitfield::{elements, lemma_element_fits, lemma_masks_fit, max_value};
use vstd::prelude::*;

verus! {

/// A container of `N`-bit flag masks.
#[derive(Debug)]
pub struct FlagsContainer<const N: usize> {
    bits: PackedBitsContainer<N>,
}

/// Bit `j` is set in `bits`.
pub open spec fn flag_set(bits: u32, j: nat) -> bool {
    bits & (1u32 << j) != 0
}

impl<const N: usize> View for FlagsContainer<N> {
    type V = Seq<u32>;

    /// The masks, in order.
    open spec fn view(&self) -> Seq<u32> {
        self.spec_bits()@
    }
}

impl<const N: usize> FlagsContainer<N> {
    /// The array that holds the masks.
    pub closed spec fn spec_bits(&self) -> PackedBitsContainer<N> {
        self.bits
    }

    /// Creates an empty container in memory.
    pub fn new_in_memory() -> (r: Self)
        requires
            1 <= N <= 32,
        ensures
            r@ == Seq::<u32>::empty(),
            r.spec_bits().spec_len() == 0,
            r.spec_bits().spec_storage().in_memory(),
            r.spec_bits().in_sync(),
            r.spec_bits().complete(),
            r.spec_bits().clean(),
    {
        let bits = PackedBitsContainer::<N>::new_in_memory();
        assert(bits@ =~= Seq::<u32>::empty());
        Self { bits }
    }

    /// Creates an empty container in memory with room for `capacity` masks.
    pub fn with_capacity(capacity: usize) -> (r: Self)
        requires
            1 <= N <= 32,
            HEADER_SIZE + crate::bitfield::bytes_for(capacity as int, N) <= usize::MAX,
        ensures
            r@ == Seq::<u32>::empty(),
            r.spec_bits().spec_len() == 0,
            r.spec_bits().spec_storage().in_memory(),
            r.spec_bits().in_sync(),
            r.spec_bits().complete(),
            r.spec_bits().clean(),
    {
        let bits = PackedBitsContainer::<N>::with_capacity(capacity);
        assert(bits@ =~= Seq::<u32>::empty());
        Self { bits }
    }

    /// Appends a mask; see [`PackedBitsContainer::push`].
    pub fn push(&mut self, flags: u32) -> (r: Result<(), PackedBitsError>)
        requires
            1 <= N <= 32,
            old(self).spec_bits().can_hold(1),
        ensures
            r == super::push_outcome(
                flags,
                old(self).spec_bits().bytes().len(),
                old(self).spec_bits().spec_len(),
                N,
                old(self).spec_bits().spec_storage().in_memory(),
                old(self).spec_bits().spec_storage().writable(),
            ),
            r is Err ==> final(self).spec_bits().bytes() == old(self).spec_bits().bytes()
                && final(self).spec_bits().spec_len() == old(self).spec_bits().spec_len(),
            r is Ok ==> {
                &&& final(self).spec_bits().spec_len() == old(self).spec_bits().spec_len() + 1
                &&& final(self).spec_bits().complete()
                &&& final(self).spec_bits().spec_storage().in_memory() == old(self).spec_bits().spec_storage().in_memory()
                &&& final(self).spec_bits().spec_storage().writable() == old(self).spec_bits().spec_storage().writable()
                &&& old(self).spec_bits().in_sync() ==> final(self).spec_bits().in_sync()
                &&& old(self).spec_bits().clean() ==> final(self).spec_bits().clean() && final(self)@ == old(self)@.push(flags)
            },
    {
        self.bits.push(flags)
    }

    /// Tells whether any bit of `mask` is set in the element at `index`;
    /// `false` past the end.
    pub fn contains(&self, index: usize, mask: u32) -> (r: bool)
        requires
            1 <= N <= 32,
        ensures
            r == (index < self@.len() && self@[index as int] & mask != 0),
    {
        match self.bits.get(index) {
            Some(val) => (val & mask) != 0,
            None => false,
        }
    }

    /// Sets the bits of `mask` in the element at `index`. An index at or
    /// past the length is refused, and so is a mask with a bit above the
    /// `N` lowest: the element would no longer fit.
    pub fn set_mask(&mut self, index: usize, mask: u32) -> (r: Result<(), PackedBitsError>)
        requires
            1 <= N <= 32,
        ensures
            index >= old(self)@.len() ==> r == Err::<(), PackedBitsError>(
                PackedBitsError::StorageTooSmall,
            ),
            index < old(self)@.len() ==> r == super::set_outcome(
                index,
                old(self)@[index as int] | mask,
                old(self)@.len(),
                N,
                old(self).spec_bits().spec_storage().writable(),
            ),
            mask <= max_value(N) ==> r == mask_outcome(
                index,
                old(self)@.len(),
                old(self).spec_bits().spec_storage().writable(),
            ),
            final(self)@.len() == old(self)@.len(),
            final(self).spec_bits().spec_len() == old(self).spec_bits().spec_len(),
            final(self).spec_bits().spec_storage().writable() == old(self).spec_bits().spec_storage().writable(),
            final(self).spec_bits().spec_storage().in_memory() == old(self).spec_bits().spec_storage().in_memory(),
            old(self).spec_bits().in_sync() ==> final(self).spec_bits().in_sync(),
            old(self).spec_bits().complete() ==> final(self).spec_bits().complete(),
            r is Err ==> final(self).spec_bits().bytes() == old(self).spec_bits().bytes(),
            r is Ok && old(self).spec_bits().complete() ==> final(self)@ == old(self)@.update(
                index as int,
                old(self)@[index as int] | mask,
            ),
    {
        match self.bits.get(index) {
            Some(val) => {
                proof {
                    lemma_element_fits(self.bits.bytes(), HEADER_SIZE as int, N, index as int);
                    lemma_masks_fit(val, mask, N);
                }
                let new_val = val | mask;
                self.bits.set(index, new_val)
            },
            None => Err(PackedBitsError::StorageTooSmall),
        }
    }

    /// Clears the bits of `mask` in the element at `index`.
    pub fn clear_mask(&mut self, index: usize, mask: u32) -> (r: Result<(), PackedBitsError>)
        requires
            1 <= N <= 32,
        ensures
            r == mask_outcome(
                index,
                old(self)@.len(),
                old(self).spec_bits().spec_storage().writable(),
            ),
            final(self)@.len() == old(self)@.len(),
            final(self).spec_bits().spec_len() == old(self).spec_bits().spec_len(),
            final(self).spec_bits().spec_storage().writable() == old(self).spec_bits().spec_storage().writable(),
            final(self).spec_bits().spec_storage().in_memory() == old(self).spec_bits().spec_storage().in_memory(),
            old(self).spec_bits().in_sync() ==> final(self).spec_bits().in_sync(),
            old(self).spec_bits().complete() ==> final(self).spec_bits().complete(),
            r is Err ==> final(self).spec_bits().bytes() == old(self).spec_bits().bytes(),
            r is Ok && old(self).spec_bits().complete() ==> final(self)@ == old(self)@.update(
                index as int,
                old(self)@[index as int] & !mask,
            ),
    {
        match self.bits.get(index) {
            Some(val) => {
                proof {
                    lemma_element_fits(self.bits.bytes(), HEADER_SIZE as int, N, index as int);
                    lemma_masks_fit(val, mask, N);
                }
                let new_val = val & !mask;
                self.bits.set(index, new_val)
            },
            None => Err(PackedBitsError::StorageTooSmall),
        }
    }

    /// Flips the bits of `mask` in the element at `index`. An index at or
    /// past the length is refused, and so is a mask with a bit above the
    /// `N` lowest: the element would no longer fit.
    pub fn toggle_mask(&mut self, index: usize, mask: u32) -> (r: Result<(), PackedBitsError>)
        requires
            1 <= N <= 32,
        ensures
            index >= old(self)@.len() ==> r == Err::<(), PackedBitsError>(
                PackedBitsError::StorageTooSmall,
            ),
            index < old(self)@.len() ==> r == super::set_outcome(
                index,
                old(self)@[index as int] ^ mask,
                old(self)@.len(),
                N,
                old(self).spec_bits().spec_storage().writable(),
            ),
            mask <= max_value(N) ==> r == mask_outcome(
                index,
                old(self)@.len(),
                old(self).spec_bits().spec_storage().writable(),
            ),
            final(self)@.len() == old(self)@.len(),
            final(self).spec_bits().spec_len() == old(self).spec_bits().spec_len(),
            final(self).spec_bits().spec_storage().writable() == old(self).spec_bits().spec_storage().writable(),
            final(self).spec_bits().spec_storage().in_memory() == old(self).spec_bits().spec_storage().in_memory(),
            old(self).spec_bits().in_sync() ==> final(self).spec_bits().in_sync(),
            old(self).spec_bits().complete() ==> final(self).spec_bits().complete(),
            r is Err ==> final(self).spec_bits().bytes() == old(self).spec_bits().bytes(),
            r is Ok && old(self).spec_bits().complete() ==> final(self)@ == old(self)@.update(
                index as int,
                old(self)@[index as int] ^ mask,
            ),
    {
        match self.bits.get(index) {
            Some(val) => {
                proof {
                    lemma_element_fits(self.bits.bytes(), HEADER_SIZE as int, N, index as int);
                    lemma_masks_fit(val, mask, N);
                }
                let new_val = val ^ mask;
                self.bits.set(index, new_val)
            },
            None => Err(PackedBitsError::StorageTooSmall),
        }
    }

    /// Returns the mask at `index`, or `None` past the end.
    pub fn get(&self, index: usize) -> (r: Option<u32>)
        requires
            1 <= N <= 32,
        ensures
            r == if index < self@.len() {
                Some(self@[index as int])
            } else {
                None
            },
    {
        self.bits.get(index)
    }

    /// Returns the number of elements.
    pub fn len(&self) -> (r: usize)
        ensures
            r == self@.len(),
    {
        self.bits.len()
    }

    /// Returns `true` if there are no elements.
    pub fn is_empty(&self) -> (r: bool)
        ensures
            r == (self@.len() == 0),
    {
        self.bits.is_empty()
    }

    /// Removes every element; see [`PackedBitsContainer::clear`].
    pub fn clear(&mut self) -> (r: Result<(), PackedBitsError>)
        requires
            1 <= N <= 32,
        ensures
            final(self).spec_bits().spec_storage().writable() == old(self).spec_bits().spec_storage().writable(),
            final(self).spec_bits().spec_storage().in_memory() == old(self).spec_bits().spec_storage().in_memory(),
            old(self).spec_bits().spec_storage().in_memory() ==> {
                &&& r is Ok
                &&& final(self)@ == Seq::<u32>::empty()
                &&& final(self).spec_bits().spec_len() == 0
                &&& final(self).spec_bits().complete()
                &&& final(self).spec_bits().clean()
                &&& old(self).spec_bits().in_sync() ==> final(self).spec_bits().in_sync()
            },
            !old(self).spec_bits().spec_storage().in_memory() ==> {
                &&& r == Err::<(), PackedBitsError>(PackedBitsError::ResizeFailed)
                &&& final(self).spec_bits().bytes() == old(self).spec_bits().bytes()
                &&& final(self).spec_bits().spec_len() == old(self).spec_bits().spec_len()
                &&& final(self)@ == old(self)@
            },
    {
        let r = self.bits.clear();
        assert(old(self).bits.spec_storage().in_memory() ==> self.bits@ =~= Seq::<u32>::empty());
        r
    }

    /// Returns a cursor over the masks.
    pub fn iter(&self) -> (r: super::Iter<'_, N>)
        ensures
            r.source() == self@,
            r.position() == 0,
    {
        self.bits.iter()
    }

    /// The array that holds the masks.
    pub fn packed_bits(&self) -> (r: &PackedBitsContainer<N>)
        ensures
            *r == self.spec_bits(),
    {
        &self.bits
    }

    /// Returns a cursor over the set bits of the element at `index`, or
    /// `None` past the end.
    pub fn iter_flags(&self, index: usize) -> (r: Option<FlagsIter>)
        requires
            1 <= N <= 32,
        ensures
            index >= self@.len() ==> r is None,
            index < self@.len() ==> r is Some && r.unwrap().wf() && r.unwrap().remaining()
                == flags_from(self@[index as int], 0),
    {
        match self.get(index) {
            Some(bits) => Some(FlagsIter::new(bits)),
            None => None,
        }
    }
}

/// How a change of one element's mask ends where the new mask fits: an
/// index past the end is refused, and so is a read-only storage.
pub open spec fn mask_outcome(index: usize, len: nat, writable: bool) -> Result<
    (),
    PackedBitsError,
> {
    if index >= len {
        Err(PackedBitsError::StorageTooSmall)
    } else if !writable {
        Err(PackedBitsError::StorageReadOnly)
    } else {
        Ok(())
    }
}

/// The masks of the bits of `bits` that are set, from bit `from` up, lowest
/// first.
pub open spec fn flags_from(bits: u32, from: nat) -> Seq<u32>
    decreases 32 - from,
{
    if from >= 32 {
        Seq::<u32>::empty()
    } else if flag_set(bits, from) {
        seq![1u32 << from] + flags_from(bits, from + 1)
    } else {
        flags_from(bits, from + 1)
    }
}

/// A cursor over the set bits of one mask, from the lowest to the highest.
pub struct FlagsIter {
    bits: u32,
    next_mask: u32,
    pos: Ghost<nat>,
}

impl FlagsIter {
    /// The mask that the cursor walks.
    pub closed spec fn spec_bits(&self) -> u32 {
        self.bits
    }

    /// The number of the bit that the cursor looks at next; 32 once it has
    /// looked at all of them.
    pub closed spec fn position(&self) -> nat {
        self.pos@
    }

    /// The cursor's own mask is the one of the bit it looks at next.
    pub closed spec fn wf(&self) -> bool {
        &&& self.pos@ <= 32
        &&& self.next_mask == if self.pos@ < 32 {
            1u32 << self.pos@
        } else {
            0u32
        }
    }

    /// The masks that the cursor has yet to return.
    pub open spec fn remaining(&self) -> Seq<u32> {
        flags_from(self.spec_bits(), self.position())
    }

    /// Places a cursor at the lowest bit of `bits`.
    pub fn new(bits: u32) -> (r: Self)
        ensures
            r.wf(),
            r.spec_bits() == bits,
            r.position() == 0,
    {
        assert(1u32 << 0u32 == 1u32) by (bit_vector);
        Self { bits, next_mask: 1, pos: Ghost(0) }
    }

    /// Returns the mask of the next set bit and moves past it, or `None`
    /// once no set bit is left.
    pub fn next(&mut self) -> (r: Option<u32>)
        requires
            old(self).wf(),
        ensures
            final(self).wf(),
            final(self).spec_bits() == old(self).spec_bits(),
            old(self).position() <= final(self).position(),
            match r {
                Some(mask) => old(self).remaining() == seq![mask] + final(self).remaining(),
                None => old(self).remaining() == Seq::<u32>::empty() && final(self).position()
                    == 32,
            },
    {
        while self.next_mask != 0
            invariant
                self.wf(),
                self.bits == old(self).bits,
                old(self).pos@ <= self.pos@,
                flags_from(self.bits, old(self).pos@) == flags_from(self.bits, self.pos@),
            decreases 32 - self.pos@,
        {
            let mask = self.next_mask;
            let ghost at = self.pos@;
            proof {
                let k = at as u32;
                assert(k < 32 ==> (1u32 << k) != 0 && (k < 31 ==> (1u32 << k) << 1u32 == 1u32 << (
                    (k + 1) as u32
                )) && (k == 31 ==> (1u32 << k) << 1u32 == 0)) by (bit_vector);
            }
            self.next_mask = self.next_mask << 1;
            self.pos = Ghost((at + 1) as nat);
            if (self.bits & mask) != 0 {
                return Some(mask);
            }
        }
        proof {
            let k = self.pos@ as u32;
            assert(k < 32 ==> (1u32 << k) != 0) by (bit_vector);
        }
        None
    }

    /// Returns the masks of the set bits that are left, lowest first.
    pub fn collect(self) -> (r: Vec<u32>)
        requires
            self.wf(),
        ensures
            r@ == self.remaining(),
    {
        let mut it = self;
        let mut out: Vec<u32> = Vec::new();
        loop
            invariant
                it.wf(),
                it.spec_bits() == self.spec_bits(),
                out@ + it.remaining() == self.remaining(),
            decreases 33 - it.position(),
        {
            let ghost before = it;
            match it.next() {
                Some(mask) => {
                    out.push(mask);
                    assert(out@ + it.remaining() =~= self.remaining());
                },
                None => {
                    assert(out@ =~= out@ + before.remaining());
                    return out;
                },
            }
        }
    }
}

} // verus!
