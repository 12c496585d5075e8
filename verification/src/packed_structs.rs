//! A fixed-size byte buffer, the raw form of one packed struct.

use vstd::prelude::*;

verus! {

/// A buffer of exactly `N` bytes.
#[derive(Clone, Copy, Debug, PartialEq, Eq)]
pub struct PackedBytes<const N: usize> {
    bytes: [u8; N],
}

impl<const N: usize> View for PackedBytes<N> {
    type V = Seq<u8>;

    /// The bytes, in order.
    closed spec fn view(&self) -> Seq<u8> {
        self.bytes@
    }
}

impl<const N: usize> PackedBytes<N> {
    /// A buffer has `N` bytes.
    pub proof fn lemma_len(&self)
        ensures
            self@.len() == N,
    {
        vstd::array::array_len_matches_n(&self.bytes);
    }

    /// Creates a buffer of zero bytes.
    pub fn new() -> (r: Self)
        ensures
            r@.len() == N,
            forall|i: int| 0 <= i < N ==> r@[i] == 0,
    {
        Self { bytes: [0u8; N] }
    }

    /// Creates a buffer from its bytes.
    pub fn from_bytes(bytes: [u8; N]) -> (r: Self)
        ensures
            r@ == bytes@,
    {
        Self { bytes }
    }

    /// The bytes, read-only.
    pub fn as_bytes(&self) -> (r: &[u8])
        ensures
            r@ == self@,
    {
        self.bytes.as_slice()
    }

    /// The bytes, for writing.
    pub fn as_bytes_mut(&mut self) -> (r: &mut [u8])
        ensures
            r@ == old(self)@,
            final(self)@ == final(r)@,
    {
        &mut self.bytes
    }

    /// Returns a copy of the bytes.
    pub fn get(&self) -> (r: [u8; N])
        ensures
            r@ == self@,
    {
        self.bytes
    }

    /// Overwrites the buffer with `value`, which must hold `N` bytes.
    pub fn set(&mut self, value: &[u8])
        requires
            value@.len() == N,
        ensures
            final(self)@ == value@,
    {
        let mut i: usize = 0;
        while i < N
            invariant
                i <= N,
                value@.len() == N,
                self.bytes@.len() == N,
                forall|k: int| 0 <= k < i ==> self.bytes@[k] == value@[k],
            decreases N - i,
        {
            self.bytes[i] = value[i];
            i += 1;
        }
        assert(self.bytes@ =~= value@);
    }
}

impl<const N: usize> Default for PackedBytes<N> {
    fn default() -> (r: Self)
        ensures
            r@.len() == N,
            forall|i: int| 0 <= i < N ==> r@[i] == 0,
    {
        Self::new()
    }
}

} // verus!
