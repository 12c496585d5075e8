//! The calls into `std`, `zstd` and `sha2` that the verifier has no
//! specification for. Each contract here is taken on trust from the
//! documentation or the source of the function that the body calls.

use vstd::prelude::*;

verus! {

/// `Vec::capacity`: how many bytes the vector can hold without reallocating.
/// The number is the allocator's choice; the documentation of `Vec`
/// guarantees only that it is never below the length.
#[verifier::external_body]
pub(crate) fn vec_capacity(v: &Vec<u8>) -> (r: usize)
    ensures
        r >= v@.len(),
{
    v.capacity()
}

/// `Vec::shrink_to_fit`: gives unused capacity back to the allocator. The
/// elements stay as they are.
#[verifier::external_body]
pub(crate) fn vec_shrink_to_fit(v: &mut Vec<u8>)
    ensures
        final(v)@ == old(v)@,
{
    v.shrink_to_fit()
}

/// `std::str::from_utf8`: the bytes as a string slice, if they are valid
/// UTF-8, and `None` if they are not. The slice borrows the bytes as they
/// are.
#[verifier::external_body]
pub(crate) fn str_from_utf8(bytes: &[u8]) -> (r: Option<&str>)
    ensures
        r is Some <==> vstd::utf8::valid_utf8(bytes@),
        r is Some ==> vstd::string::StringSliceAdditionalSpecFns::spec_bytes(r.unwrap())
            == bytes@,
{
    match std::str::from_utf8(bytes) {
        Ok(s) => Some(s),
        Err(_) => None,
    }
}

/// `std::io::Error` as text (its `Display`). The text is the error's own
/// description and has no fixed form.
#[verifier::external_body]
pub(crate) fn io_error_text(e: &std::io::Error) -> (r: String) {
    e.to_string()
}

/// What `zstd::encode_all` makes of `data` at compression level `level`:
/// the compressed bytes, or `None` where it fails.
pub uninterp spec fn zstd_encoded(data: Seq<u8>, level: int) -> Option<Seq<u8>>;

/// What `zstd::decode_all` makes of `data`: the decompressed bytes, or
/// `None` where `data` is no complete zstd stream.
pub uninterp spec fn zstd_decoded(data: Seq<u8>) -> Option<Seq<u8>>;

/// `zstd::encode_all`: compresses `data` in one go at the given level. The
/// result depends on the bytes and the level alone.
#[verifier::external_body]
pub(crate) fn zstd_encode(data: &[u8], level: i32) -> (r: Option<Vec<u8>>)
    requires
        1 <= level <= 22,
    ensures
        r is Some == zstd_encoded(data@, level as int) is Some,
        r is Some ==> r.unwrap()@ == zstd_encoded(data@, level as int).unwrap(),
{
    match zstd::encode_all(data, level) {
        Ok(v) => Some(v),
        Err(_) => None,
    }
}

/// `zstd::decode_all`: decompresses `data` in one go. The result depends
/// on the bytes alone; a failure comes with the library's description of
/// it.
#[verifier::external_body]
pub(crate) fn zstd_decode(data: &[u8]) -> (r: Result<Vec<u8>, String>)
    ensures
        r is Ok == zstd_decoded(data@) is Some,
        r is Ok ==> r->Ok_0@ == zstd_decoded(data@).unwrap(),
{
    match zstd::decode_all(data) {
        Ok(v) => Ok(v),
        Err(e) => Err(e.to_string()),
    }
}

/// The SHA-256 digest of `data`, as `sha2::Sha256` computes it.
pub uninterp spec fn sha256(data: Seq<u8>) -> Seq<u8>;

/// `sha2::Sha256::digest`: the SHA-256 digest of `data`, which is 32 bytes
/// long whatever `data` is.
#[verifier::external_body]
pub(crate) fn sha256_digest(data: &[u8]) -> (r: Vec<u8>)
    ensures
        r@ == sha256(data@),
        r@.len() == 32,
{
    <sha2::Sha256 as sha2::Digest>::digest(data).to_vec()
}

} // verus!
