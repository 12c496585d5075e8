//! An array of `N`-bit unsigned integers packed tightly into bytes, for any
//! width `N` between 1 and 32.
//!
//! Element `i` occupies bits `i * N .. (i + 1) * N` of the buffer, counted
//! from the least significant bit of the first byte.

use crate::bitfield::{
    all_fit, byte_count, bytes_for, capacity_in_elements, clear_from, element, element_capacity,
    elements, lemma_grown, lemma_pushed, lemma_pushed_all, lemma_replaced, locate, max_value,
    max_value_of, or_field, pushed, pushed_all, read_field, replaced, write_field,
};
use crate::foreign::vec_capacity;
use vstd::prelude::*;

mod error;

pub use error::PackedBitsError;

verus! {

/// A growable array of `N`-bit values.
#[derive(Debug, Clone, PartialEq, Eq)]
pub struct PackedBits<const N: usize> {
    data: Vec<u8>,
    len: usize,
}

impl<const N: usize> View for PackedBits<N> {
    type V = Seq<u32>;

    /// The elements, in order.
    open spec fn view(&self) -> Seq<u32> {
        elements(self.bytes(), 0, N, self.spec_len())
    }
}

impl<const N: usize> PackedBits<N> {
    /// The underlying buffer.
    pub closed spec fn bytes(&self) -> Seq<u8> {
        self.data@
    }

    /// The number of elements.
    pub closed spec fn spec_len(&self) -> nat {
        self.len as nat
    }

    /// The width is supported and the buffer holds every element in full.
    pub open spec fn wf(&self) -> bool {
        &&& 1 <= N <= 32
        &&& bytes_for(self.spec_len() as int, N) <= self.bytes().len()
    }

    /// No bit is set in the buffer past the last element. Arrays built by
    /// `new`, `push` and `set` are clean; `from_bytes` takes the buffer as it
    /// comes.
    pub open spec fn clean(&self) -> bool {
        clear_from(self.bytes(), 0, self.spec_len() * N)
    }

    /// Room, within `usize`, for `extra` more elements.
    pub open spec fn can_hold(&self, extra: nat) -> bool {
        &&& self.spec_len() + extra <= usize::MAX
        &&& bytes_for((self.spec_len() + extra) as int, N) <= usize::MAX
    }

    /// Creates an empty array.
    pub fn new() -> (r: Result<Self, PackedBitsError>)
        ensures
            1 <= N <= 32 ==> r is Ok && r->Ok_0.wf() && r->Ok_0.clean() && r->Ok_0.spec_len() == 0
                && r->Ok_0.bytes() == Seq::<u8>::empty(),
            !(1 <= N <= 32) ==> r == Err::<Self, PackedBitsError>(
                PackedBitsError::InvalidBitWidth(N),
            ),
    {
        if N == 0 || N > 32 {
            return Err(PackedBitsError::InvalidBitWidth(N));
        }
        assert(0 * N == 0);
        Ok(Self { data: Vec::new(), len: 0 })
    }

    /// Creates an empty array with room for `capacity` elements.
    pub fn with_capacity(capacity: usize) -> (r: Result<Self, PackedBitsError>)
        requires
            1 <= N <= 32 ==> bytes_for(capacity as int, N) <= isize::MAX,
        ensures
            1 <= N <= 32 ==> r is Ok && r->Ok_0.wf() && r->Ok_0.clean() && r->Ok_0.spec_len() == 0
                && r->Ok_0.bytes() == Seq::<u8>::empty(),
            !(1 <= N <= 32) ==> r == Err::<Self, PackedBitsError>(
                PackedBitsError::InvalidBitWidth(N),
            ),
    {
        if N == 0 || N > 32 {
            return Err(PackedBitsError::InvalidBitWidth(N));
        }
        let byte_capacity = match byte_count(capacity, N) {
            Some(b) => b,
            None => 0,
        };
        assert(0 * N == 0);
        Ok(Self { data: Vec::with_capacity(byte_capacity), len: 0 })
    }

    /// Takes a buffer and an element count as an array. The buffer must hold
    /// at least `ceil(len * N / 8)` bytes; what it holds past the last
    /// element is kept as it is.
    pub fn from_bytes(data: Vec<u8>, len: usize) -> (r: Result<Self, PackedBitsError>)
        ensures
            !(1 <= N <= 32) ==> r == Err::<Self, PackedBitsError>(
                PackedBitsError::InvalidBitWidth(N),
            ),
            1 <= N <= 32 && data@.len() < bytes_for(len as int, N) ==> r == Err::<
                Self,
                PackedBitsError,
            >(PackedBitsError::InsufficientBytes(len)),
            1 <= N <= 32 && data@.len() >= bytes_for(len as int, N) ==> r is Ok && r->Ok_0.wf()
                && r->Ok_0.bytes() == data@ && r->Ok_0.spec_len() == len,
    {
        if N == 0 || N > 32 {
            return Err(PackedBitsError::InvalidBitWidth(N));
        }
        let have = data.len();
        match byte_count(len, N) {
            Some(min_bytes) => {
                if have < min_bytes {
                    return Err(PackedBitsError::InsufficientBytes(len));
                }
            },
            None => {
                return Err(PackedBitsError::InsufficientBytes(len));
            },
        }
        Ok(Self { data, len })
    }

    /// The underlying buffer.
    pub fn as_bytes(&self) -> (r: &[u8])
        ensures
            r@ == self.bytes(),
    {
        self.data.as_slice()
    }

    /// Gives up the array for its buffer and its element count.
    pub fn into_bytes(self) -> (r: (Vec<u8>, usize))
        ensures
            r.0@ == self.bytes(),
            r.1 == self.spec_len(),
    {
        (self.data, self.len)
    }

    /// Returns the number of stored elements.
    pub fn len(&self) -> (r: usize)
        ensures
            r == self.spec_len(),
    {
        self.len
    }

    /// Returns `true` if the array has no elements.
    pub fn is_empty(&self) -> (r: bool)
        ensures
            r == (self.spec_len() == 0),
    {
        self.len == 0
    }

    /// Removes every element and empties the buffer.
    pub fn clear(&mut self)
        ensures
            final(self).spec_len() == 0,
            final(self).bytes() == Seq::<u8>::empty(),
            final(self)@ == Seq::<u32>::empty(),
            final(self).clean(),
            1 <= N <= 32 ==> final(self).wf(),
    {
        self.data.clear();
        self.len = 0;
    }

    /// Gets the value at `index`, or `None` at or past the length.
    pub fn get(&self, index: usize) -> (r: Option<u32>)
        requires
            self.wf(),
        ensures
            r == if index < self.spec_len() {
                Some(self@[index as int])
            } else {
                None
            },
    {
        if index >= self.len {
            return None;
        }
        proof {
            assert(index * N <= self.len * N) by (nonlinear_arith)
                requires
                    index <= self.len,
                    0 <= N,
            ;
        }
        let _ = self.data.len();
        let (byte_pos, bit_offset) = locate(index, N);
        Some(read_field(self.data.as_slice(), byte_pos, bit_offset, N))
    }

    /// Appends `value`, which must fit in `N` bits. The buffer grows by zero
    /// bytes as far as needed and the value is OR-ed into place, so on a
    /// clean array the new element reads `value`.
    pub fn push(&mut self, value: u32) -> (r: Result<(), PackedBitsError>)
        requires
            old(self).wf(),
            old(self).can_hold(1),
        ensures
            final(self).wf(),
            value > max_value(N) ==> {
                &&& r == Err::<(), PackedBitsError>(PackedBitsError::ValueOverflow(value, N))
                &&& final(self).bytes() == old(self).bytes()
                &&& final(self).spec_len() == old(self).spec_len()
            },
            value <= max_value(N) ==> {
                &&& r is Ok
                &&& final(self).spec_len() == old(self).spec_len() + 1
                &&& final(self).bytes() == pushed(
                    old(self).bytes(),
                    0,
                    N,
                    old(self).spec_len() as int,
                    value,
                )
                &&& final(self)@ == old(self)@.push(
                    element(old(self).bytes(), 0, N, old(self).spec_len() as int) | value,
                )
            },
            value <= max_value(N) && old(self).clean() ==> {
                &&& final(self).clean()
                &&& final(self)@ == old(self)@.push(value)
            },
    {
        let max_val = max_value_of(N);
        if value > max_val {
            return Err(PackedBitsError::ValueOverflow(value, N));
        }
        proof {
            assert((self.len + 1) * N == self.len * N + N) by (nonlinear_arith);
            lemma_grown(self.data@, bytes_for(self.len + 1, N), 0, N);
            lemma_pushed(self.data@, 0, N, self.len as nat, value);
        }
        let (byte_pos, bit_offset) = locate(self.len, N);
        let required_bytes = byte_pos + (N + bit_offset + 7) / 8;
        if self.data.len() < required_bytes {
            self.data.resize(required_bytes, 0);
        }
        assert(self.data@ =~= crate::bitfield::grown(
            old(self).data@,
            bytes_for(old(self).len + 1, N),
        ));
        or_field(self.data.as_mut_slice(), byte_pos, bit_offset, N, value);
        self.len += 1;
        Ok(())
    }

    /// Overwrites the value at `index` with `value`, which must fit in `N`
    /// bits. Nothing else in the buffer changes.
    pub fn set(&mut self, index: usize, value: u32) -> (r: Result<(), PackedBitsError>)
        requires
            old(self).wf(),
        ensures
            final(self).wf(),
            final(self).spec_len() == old(self).spec_len(),
            index >= old(self).spec_len() ==> {
                &&& r == Err::<(), PackedBitsError>(
                    PackedBitsError::IndexOutOfBounds(index, old(self).spec_len() as usize),
                )
                &&& final(self).bytes() == old(self).bytes()
            },
            index < old(self).spec_len() && value > max_value(N) ==> {
                &&& r == Err::<(), PackedBitsError>(PackedBitsError::ValueOverflow(value, N))
                &&& final(self).bytes() == old(self).bytes()
            },
            index < old(self).spec_len() && value <= max_value(N) ==> {
                &&& r is Ok
                &&& final(self).bytes() == replaced(old(self).bytes(), 0, N, index as int, value)
                &&& final(self)@ == old(self)@.update(index as int, value)
                &&& old(self).clean() ==> final(self).clean()
            },
    {
        if index >= self.len {
            return Err(PackedBitsError::IndexOutOfBounds(index, self.len));
        }
        let max_val = max_value_of(N);
        if value > max_val {
            return Err(PackedBitsError::ValueOverflow(value, N));
        }
        proof {
            assert(index * N <= self.len * N) by (nonlinear_arith)
                requires
                    index <= self.len,
                    0 <= N,
            ;
            lemma_replaced(self.data@, 0, N, self.len as nat, index as int, value);
        }
        let _ = self.data.len();
        let (byte_pos, bit_offset) = locate(index, N);
        write_field(self.data.as_mut_slice(), byte_pos, bit_offset, N, value);
        Ok(())
    }

    /// Asks the buffer's allocator for what [`reserve_request`] makes of the
    /// buffer's capacity. The elements and the buffer's contents stay.
    pub fn reserve(&mut self, additional: usize)
        requires
            old(self).wf(),
        ensures
            final(self).bytes() == old(self).bytes(),
            final(self).spec_len() == old(self).spec_len(),
    {
        let capacity = vec_capacity(&self.data);
        match reserve_request(self.data.len(), capacity, self.len, additional, N) {
            Some(more) => {
                self.data.reserve(more);
            },
            None => {},
        }
    }

    /// Returns how many elements the buffer can hold before it reallocates.
    /// The number comes from the allocator; it is what
    /// [`element_capacity`] makes of a byte capacity that is at least the
    /// buffer's length.
    pub fn capacity(&self) -> (r: usize)
        requires
            self.wf(),
        ensures
            exists|c: usize| c >= self.bytes().len() && r == #[trigger] element_capacity(c, N),
    {
        let c = vec_capacity(&self.data);
        capacity_in_elements(c, N)
    }

    /// Appends the values of `values` in turn and stops at the first one that
    /// does not fit in `N` bits; those before it stay appended.
    pub fn extend_from_slice(&mut self, values: &[u32]) -> (r: Result<(), PackedBitsError>)
        requires
            old(self).wf(),
            old(self).can_hold(values@.len()),
        ensures
            final(self).wf(),
            r is Ok <==> all_fit(values@, N),
            r is Ok ==> {
                &&& final(self).spec_len() == old(self).spec_len() + values@.len()
                &&& final(self).bytes() == pushed_all(
                    old(self).bytes(),
                    0,
                    N,
                    old(self).spec_len() as int,
                    values@,
                )
            },
            r is Err ==> exists|k: int|
                {
                    &&& 0 <= k < values@.len()
                    &&& all_fit(values@.take(k), N)
                    &&& #[trigger] values@[k] > max_value(N)
                    &&& r == Err::<(), PackedBitsError>(
                        PackedBitsError::ValueOverflow(values@[k], N),
                    )
                    &&& final(self).spec_len() == old(self).spec_len() + k
                    &&& final(self).bytes() == pushed_all(
                        old(self).bytes(),
                        0,
                        N,
                        old(self).spec_len() as int,
                        values@.take(k),
                    )
                },
            r is Ok && old(self).clean() ==> final(self).clean() && final(self)@ == old(self)@
                + values@,
    {
        let ghost start = *self;
        let mut i: usize = 0;
        while i < values.len()
            invariant
                i <= values@.len(),
                self.wf(),
                start == *old(self),
                start.wf(),
                start.can_hold(values@.len()),
                all_fit(values@.take(i as int), N),
                self.spec_len() == start.spec_len() + i,
                self.bytes() == pushed_all(
                    start.bytes(),
                    0,
                    N,
                    start.spec_len() as int,
                    values@.take(i as int),
                ),
            decreases values@.len() - i,
        {
            let v = values[i];
            proof {
                assert(bytes_for((self.len + 1) as int, N) <= bytes_for(
                    (start.len + values@.len()) as int,
                    N,
                )) by {
                    assert((self.len + 1) * N <= (start.len + values@.len()) * N)
                        by (nonlinear_arith)
                        requires
                            self.len + 1 <= start.len + values@.len(),
                            0 <= N,
                    ;
                }
                assert(values@.take(i + 1).drop_last() =~= values@.take(i as int));
                assert(values@.take(i + 1).last() == v);
            }
            match self.push(v) {
                Ok(()) => {},
                Err(e) => {
                    proof {
                        let k = i as int;
                        assert(values@[k] > max_value(N));
                        assert(self.bytes() == pushed_all(
                            start.bytes(),
                            0,
                            N,
                            start.spec_len() as int,
                            values@.take(k),
                        ));
                    }
                    return Err(e);
                },
            }
            i += 1;
        }
        proof {
            assert(values@.take(i as int) =~= values@);
            if start.clean() {
                lemma_pushed_all(start.bytes(), 0, N, start.spec_len(), values@);
            }
        }
        Ok(())
    }

    /// Returns a cursor over the elements, placed at the first one.
    pub fn iter(&self) -> (r: Iter<'_, N>)
        ensures
            r.source() == *self,
            r.position() == 0,
    {
        Iter { bits: self, index: 0 }
    }
}

/// A cursor over the elements of a [`PackedBits`].
pub struct Iter<'a, const N: usize> {
    bits: &'a PackedBits<N>,
    index: usize,
}

impl<'a, const N: usize> Iter<'a, N> {
    /// The array that the cursor walks.
    pub closed spec fn source(&self) -> PackedBits<N> {
        *self.bits
    }

    /// The index of the element that `next` returns.
    pub closed spec fn position(&self) -> nat {
        self.index as nat
    }

    /// Returns the element under the cursor and moves on, or `None` once the
    /// cursor is past the last element.
    pub fn next(&mut self) -> (r: Option<u32>)
        requires
            old(self).source().wf(),
        ensures
            final(self).source() == old(self).source(),
            old(self).position() < old(self).source().spec_len() ==> {
                &&& r == Some(old(self).source()@[old(self).position() as int])
                &&& final(self).position() == old(self).position() + 1
            },
            old(self).position() >= old(self).source().spec_len() ==> {
                &&& r is None
                &&& final(self).position() == old(self).position()
            },
    {
        if self.index < self.bits.len() {
            let val = self.bits.get(self.index);
            self.index += 1;
            val
        } else {
            None
        }
    }

    /// Returns the number of elements left, as both bounds.
    pub fn size_hint(&self) -> (r: (usize, Option<usize>))
        ensures
            r.0 == if self.position() <= self.source().spec_len() {
                self.source().spec_len() - self.position()
            } else {
                0
            },
            r.1 == Some(r.0),
    {
        let len = self.bits.len();
        let remaining = if self.index <= len {
            len - self.index
        } else {
            0
        };
        (remaining, Some(remaining))
    }

    /// Returns the elements from the cursor to the end, in order.
    pub fn collect(self) -> (r: Vec<u32>)
        requires
            self.source().wf(),
        ensures
            r@ == if self.position() <= self.source().spec_len() {
                self.source()@.subrange(
                    self.position() as int,
                    self.source().spec_len() as int,
                )
            } else {
                Seq::<u32>::empty()
            },
    {
        let mut out: Vec<u32> = Vec::new();
        let len = self.bits.len();
        let mut i = self.index;
        while i < len
            invariant
                self.bits.wf(),
                len == self.bits.spec_len(),
                self.index <= i <= len || (i == self.index && i > len),
                i <= len ==> out@ == self.bits@.subrange(self.index as int, i as int),
                i > len ==> out@ == Seq::<u32>::empty(),
            decreases len - i,
        {
            match self.bits.get(i) {
                Some(v) => {
                    out.push(v);
                },
                None => {},
            }
            i += 1;
            assert(out@ =~= self.bits@.subrange(self.index as int, i as int));
        }
        out
    }
}

/// How many bytes past its length a buffer of `byte_len` bytes and room for
/// `capacity` must ask for, so that `additional` more elements of `n` bits
/// fit beside the `len` that it holds: as many as `len + additional`
/// elements take, less its length. `None` where the capacity is that large
/// already, and where the elements or their bytes are more than `usize`
/// can count, so that no buffer could hold them.
pub open spec fn spec_reserve_request(
    byte_len: usize,
    capacity: usize,
    len: usize,
    additional: usize,
    n: usize,
) -> Option<usize> {
    if len + additional > usize::MAX {
        None
    } else if bytes_for(len + additional, n) > usize::MAX {
        None
    } else if capacity >= bytes_for(len + additional, n) {
        None
    } else {
        Some((bytes_for(len + additional, n) - byte_len) as usize)
    }
}

/// Computes [`spec_reserve_request`] from the length and the capacity of a
/// buffer; the capacity of a buffer is never below its length.
pub fn reserve_request(
    byte_len: usize,
    capacity: usize,
    len: usize,
    additional: usize,
    n: usize,
) -> (r: Option<usize>)
    requires
        1 <= n <= 32,
        byte_len <= capacity,
    ensures
        r == spec_reserve_request(byte_len, capacity, len, additional, n),
        r is Some ==> byte_len + r.unwrap() == bytes_for(len + additional, n),
{
    let total = match len.checked_add(additional) {
        Some(t) => t,
        None => {
            return None;
        },
    };
    let required_bytes = match byte_count(total, n) {
        Some(b) => b,
        None => {
            return None;
        },
    };
    if capacity < required_bytes {
        Some(required_bytes - byte_len)
    } else {
        None
    }
}

/// Values that fit `n` bits, appended one by one to an empty array, read
/// back unchanged and in order.
pub proof fn lemma_push_get_round_trip(n: usize, values: Seq<u32>)
    requires
        1 <= n <= 32,
        all_fit(values, n),
    ensures
        elements(pushed_all(Seq::<u8>::empty(), 0, n, 0, values), 0, n, values.len()) == values,
{
    assert(0 * n == 0);
    lemma_pushed_all(Seq::<u8>::empty(), 0, n, 0, values);
    assert(elements(Seq::<u8>::empty(), 0, n, 0) + values =~= values);
}

} // verus!
