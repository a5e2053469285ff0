//! The xz stage, delegated to liblzma through the `lzma` crate.

use vstd::prelude::*;

verus! {

#[verifier::external_type_specification]
#[verifier::external_body]
pub struct ExLzmaError(lzma::LzmaError);

/// The xz stream that liblzma's encoder at `preset` makes of `data`.
pub uninterp spec fn xz_compressed(data: Seq<u8>, preset: u32) -> Seq<u8>;

/// The bytes that the xz stream `data` decodes to.
pub uninterp spec fn xz_decompressed(data: Seq<u8>) -> Seq<u8>;

/// Relies on `lzma::compress`: it runs liblzma's easy encoder at `preset`
/// (CRC64 check) over `data` to the end and returns the whole stream, which
/// depends on the two arguments alone. It fails only where liblzma reports an
/// error; for a preset from 0 to 9 that is a failed allocation, which, as for
/// std's collections, is taken not to happen.
#[verifier::external_body]
pub(crate) fn xz_compress(data: &Vec<u8>, preset: u32) -> (r: Result<Vec<u8>, lzma::LzmaError>)
    ensures
        preset <= 9 ==> r is Ok,
        r matches Ok(c) ==> c@ == xz_compressed(data@, preset),
{
    lzma::compress(data.as_slice(), preset)
}

/// Relies on `lzma::decompress`: it runs liblzma's decoder, with no memory
/// limit, over `data` to the end and returns what the stream holds. xz is
/// lossless: a stream that the encoder made of `x` at a preset from 0 to 9
/// decodes to `x`, and fails to decode only on a failed allocation, which,
/// as for std's collections, is taken not to happen.
#[verifier::external_body]
pub(crate) fn xz_decompress(data: &Vec<u8>) -> (r: Result<Vec<u8>, lzma::LzmaError>)
    ensures
        r matches Ok(d) ==> d@ == xz_decompressed(data@),
        forall|x: Seq<u8>, preset: u32|
            preset <= 9 && data@ == #[trigger] xz_compressed(x, preset) ==> r is Ok,
        forall|x: Seq<u8>, preset: u32|
            preset <= 9 && r is Ok && data@ == #[trigger] xz_compressed(x, preset) ==> r->Ok_0@
                == x,
{
    lzma::decompress(data.as_slice())
}

} // verus!
