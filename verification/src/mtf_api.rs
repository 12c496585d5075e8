//! Access by name to the fields of structs that lie packed in a byte
//! buffer, from the description that a type-format blob gives of them.

use crate::endian::{push_u32_le, u32_le_bytes};
use crate::mtf::MTFError;
use vstd::prelude::*;

pub mod dynamic;

pub use dynamic::{DynamicContainer, DynamicContainerIter, FieldHandle};

verus! {

/// The bytes of a file that holds structs and their description: the
/// structs' bytes, the size of the blob as a 32-bit little-endian number
/// (cut down to 32 bits), and the blob.
pub open spec fn with_mtf(raw: Seq<u8>, blob: Seq<u8>) -> Seq<u8> {
    raw + u32_le_bytes(blob.len() as u32) + blob
}

/// Appends the bytes of a slice of structs, then the size of their blob and
/// the blob itself.
pub fn write_slice_with_mtf(out: &mut Vec<u8>, raw: &[u8], blob: &[u8]) -> (r: Result<
    (),
    MTFError,
>)
    ensures
        r is Ok,
        final(out)@ == old(out)@ + with_mtf(raw@, blob@),
{
    let ghost start = out@;
    out.extend_from_slice(raw);
    assert(out@ =~= start + raw@);
    push_u32_le(out, #[verifier::truncate] (blob.len() as u32));
    let ghost mid = out@;
    out.extend_from_slice(blob);
    assert(out@ =~= mid + blob@);
    assert(out@ =~= start + with_mtf(raw@, blob@));
    Ok(())
}

} // verus!
