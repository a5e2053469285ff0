//! Encoding a payload into a grid and decoding it again, with the optional
//! xz stage around the packing.

use crate::codec::{is_packing_of, lemma_unpack_pack, packable, try_pack, unpack, unpacked};
use crate::error::FtoiError;
use crate::grid::PixelGrid;
use crate::xz::{xz_compress, xz_compressed, xz_decompress, xz_decompressed};
use vstd::prelude::*;

verus! {

/// The xz preset used when compressing.
pub const XZ_PRESET: u32 = 7;

/// The payload that a grid carries for `data`: `data` itself, or its xz stream.
pub open spec fn carried(data: Seq<u8>, compress: bool) -> Seq<u8> {
    if compress {
        xz_compressed(data, XZ_PRESET)
    } else {
        data
    }
}

/// Encodes `data` into a grid, compressing it first when `compress` is set.
/// It fails only when that grid would not fit in memory.
pub fn encode(data: &Vec<u8>, compress: bool) -> (r: Result<PixelGrid, FtoiError>)
    ensures
        r matches Ok(g) ==> is_packing_of(g, carried(data@, compress)),
        r is Ok <==> packable(carried(data@, compress).len()),
        r matches Err(e) ==> e == FtoiError::TooLarge,
{
    if compress {
        match xz_compress(data, XZ_PRESET) {
            Ok(c) => try_pack(&c),
            Err(_) => Err(FtoiError::Compression),
        }
    } else {
        try_pack(data)
    }
}

/// Decodes the payload of `g`, decompressing it when `compress` is set.
/// Decoding a grid that encodes `b` succeeds and gives `b` back, compressed
/// or not.
pub fn decode(g: &PixelGrid, compress: bool) -> (r: Result<Vec<u8>, FtoiError>)
    requires
        g.wf(),
    ensures
        unpacked(*g) matches Err(e) ==> r == Err::<Vec<u8>, FtoiError>(e),
        !compress ==> (r matches Ok(v) ==> unpacked(*g) == Ok::<Seq<u8>, FtoiError>(v@)),
        compress ==> (r matches Ok(v) ==> unpacked(*g) is Ok && v@ == xz_decompressed(
            unpacked(*g)->Ok_0,
        )),
        r matches Err(e) ==> unpacked(*g) == Err::<Seq<u8>, FtoiError>(e) || (compress
            && e == FtoiError::Compression && unpacked(*g) is Ok),
        forall|b: Seq<u8>|
            is_packing_of(*g, #[trigger] carried(b, compress)) ==> (r is Ok && r->Ok_0@ == b),
{
    let p = unpack(g);
    proof {
        assert forall|b: Seq<u8>| is_packing_of(*g, #[trigger] carried(b, compress)) implies p
            is Ok by {
            lemma_unpack_pack(*g, carried(b, compress));
        }
    }
    match p {
        Err(e) => Err(e),
        Ok(v) => {
            if compress {
                let d = xz_decompress(&v);
                proof {
                    assert forall|b: Seq<u8>|
                        is_packing_of(*g, #[trigger] carried(b, compress)) implies d is Ok
                            && d->Ok_0@ == b by {
                        lemma_unpack_pack(*g, carried(b, compress));
                    }
                }
                match d {
                    Ok(out) => Ok(out),
                    Err(_) => Err(FtoiError::Compression),
                }
            } else {
                proof {
                    assert forall|b: Seq<u8>| is_packing_of(*g, #[trigger] carried(b, compress)) implies v@
                        == b by {
                        lemma_unpack_pack(*g, carried(b, compress));
                    }
                }
                Ok(v)
            }
        }
    }
}

} // verus!
