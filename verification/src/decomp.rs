use vstd::prelude::*;

verus! {

/// What inflating `s` as a zlib-wrapped deflate stream yields, or nothing
/// when the stream is malformed.
pub uninterp spec fn zlib_inflated(s: Seq<u8>) -> Option<Seq<u8>>;

/// What inflating `s` as a raw deflate stream yields, or nothing when the
/// stream is malformed.
pub uninterp spec fn flate_inflated(s: Seq<u8>) -> Option<Seq<u8>>;

/// Relies on miniz_oxide::inflate::decompress_to_vec_zlib: the inflated
/// bytes are a function of the compressed bytes alone, and a malformed
/// stream yields an error value, never a panic.
#[verifier::external_body]
pub(crate) fn zlib_decompress(data: &[u8]) -> (r: Option<Vec<u8>>)
    ensures
        (r is Some) == (zlib_inflated(data@) is Some),
        r matches Some(d) ==> zlib_inflated(data@) == Some(d@),
{
    match miniz_oxide::inflate::decompress_to_vec_zlib(data) {
        Ok(out) => Some(out),
        Err(_) => None,
    }
}

/// Relies on miniz_oxide::inflate::decompress_to_vec: the inflated bytes
/// are a function of the compressed bytes alone, and a malformed stream
/// yields an error value, never a panic.
#[verifier::external_body]
pub(crate) fn flate_decompress(data: &[u8]) -> (r: Option<Vec<u8>>)
    ensures
        (r is Some) == (flate_inflated(data@) is Some),
        r matches Some(d) ==> flate_inflated(data@) == Some(d@),
{
    match miniz_oxide::inflate::decompress_to_vec(data) {
        Ok(out) => Some(out),
        Err(_) => None,
    }
}

} // verus!
