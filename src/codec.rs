//! Packing a payload into a pixel grid and unpacking it again.

use crate::error::FtoiError;
use crate::grid::PixelGrid;
use crate::layout::{
    be_bytes, be_value, grid_side, header_bytes, header_value, is_grid_side, lemma_be_round_trip,
    lemma_side_of, lemma_slot_in_grid, lemma_stream_pos, pixel_offset, side_of, slot_position,
    stream_pos,
};
use vstd::prelude::*;

verus! {

/// `b` followed by zero bytes, `len` bytes in all.
pub open spec fn zero_padded(b: Seq<u8>, len: nat) -> Seq<u8> {
    Seq::new(len, |i: int| if i < b.len() { b[i] } else { 0u8 })
}

/// `g` is the grid that packs `b`: a square of the least side that fits,
/// the length of `b` in the header, then `b` and zero bytes.
pub open spec fn is_packing_of(g: PixelGrid, b: Seq<u8>) -> bool {
    &&& b.len() <= u64::MAX
    &&& g.wf()
    &&& g.width == side_of(b.len())
    &&& g.height == g.width
    &&& g.header() == be_bytes(b.len() as u64)
    &&& g.stream() == zero_padded(b, g.stream().len())
}

/// The bytes before the payload is cut to length: the header, then the stream.
pub open spec fn grid_bytes(g: PixelGrid) -> Seq<u8> {
    g.header() + g.stream()
}

/// What unpacking `g` gives: the first `n` bytes of its stream, where `n`
/// is the length its header records.
pub open spec fn unpacked(g: PixelGrid) -> Result<Seq<u8>, FtoiError> {
    if !g.has_header() {
        Err(FtoiError::MalformedHeader)
    } else if be_value(g.header()) > g.stream().len() {
        Err(FtoiError::InsufficientData)
    } else {
        Ok(g.stream().take(be_value(g.header()) as int))
    }
}

/// The grid for a payload of `n` bytes fits in memory.
pub open spec fn packable(n: nat) -> bool {
    side_of(n) * side_of(n) * 4 <= usize::MAX
}

/// Packs `payload` into a square grid.
pub fn pack(payload: &Vec<u8>) -> (g: PixelGrid)
    requires
        packable(payload@.len()),
    ensures
        is_packing_of(g, payload@),
        is_grid_side(payload@.len(), g.width as nat),
        g.width * g.width * 4 >= payload@.len() + 8,
        be_value(g.header()) == payload@.len(),
        g.stream().len() >= payload@.len(),
        grid_bytes(g).take(payload@.len() + 8int) == be_bytes(payload@.len() as u64) + payload@,
        unpacked(g) == Ok::<Seq<u8>, FtoiError>(payload@),
{
    let n = payload.len();
    let s64 = grid_side(n);
    proof {
        lemma_side_of(n as nat);
        if s64 > u32::MAX {
            assert(s64 * s64 * 4 > u64::MAX) by (nonlinear_arith)
                requires
                    s64 > u32::MAX,
            ;
        }
    }
    let s = s64 as u32;
    let ghost si = s as int;
    let mut g = PixelGrid::new(s, s);
    let ghost zeros = g.data@;
    let hb = header_bytes(n as u64);
    let q0 = [hb[0], hb[1], hb[2], hb[3]];
    let q1 = [hb[4], hb[5], hb[6], hb[7]];
    assert(q0@ =~= be_bytes(n as u64).subrange(0, 4));
    assert(q1@ =~= be_bytes(n as u64).subrange(4, 8));
    assert(si * si * 4 >= si * 8) by (nonlinear_arith)
        requires
            si >= 2,
    ;
    assert(pixel_offset(g.width as int, 0u32 as int, 1u32 as int) == si * 4);
    g.put_pixel(0, 0, q0);
    g.put_pixel(0, 1, q1);
    assert(g.header() =~= be_bytes(n as u64)) by {
        assert forall|c: int| 0 <= c < 4 implies g.channel(0, 0, c) == q0@[c] && g.channel(0, 1, c)
            == q1@[c] by {
            assert(pixel_offset(g.width as int, 0, 0) == 0);
            assert(pixel_offset(g.width as int, 0, 1) == si * 4);
        }
        assert(g.pixel(0, 0) =~= q0@);
        assert(g.pixel(0, 1) =~= q1@);
    }
    let ghost total = (si * si - 2) * 4;
    assert(n <= total);
    assert forall|j: int| 0 <= j < total implies g.data@[stream_pos(si, si, j)] == 0 by {
        lemma_stream_pos(si, si, j);
        let p = stream_pos(si, si, j);
        assert(zeros[p] == 0);
    }
    let mut i: usize = 0;
    while i < n
        invariant
            g.wf(),
            g.width == s,
            g.height == s,
            si == s,
            si >= 2,
            n == payload@.len(),
            n <= total,
            total == (si * si - 2) * 4,
            si * si * 4 >= si * 8,
            i <= n,
            g.header() == be_bytes(n as u64),
            forall|j: int| 0 <= j < i ==> g.data@[stream_pos(si, si, j)] == payload@[j],
            forall|j: int| i <= j < total ==> g.data@[stream_pos(si, si, j)] == 0,
        decreases n - i,
    {
        let k: u64 = (i / 4) as u64;
        let c: usize = i % 4;
        proof {
            lemma_stream_pos(si, si, i as int);
            assert(si * si <= u32::MAX as int * si) by (nonlinear_arith)
                requires
                    si <= u32::MAX,
                    si >= 0,
            ;
        }
        let (x, y) = slot_position(k, s);
        proof {
            lemma_slot_in_grid(si, si, k as int);
        }
        let o = g.offset(x, y);
        assert(o + c == stream_pos(si, si, i as int));
        let ghost before = g;
        g.data.set(o + c, payload[i]);
        assert forall|cc: int| 0 <= cc < 4 implies g.channel(0, 0, cc) == before.channel(0, 0, cc)
            && g.channel(0, 1, cc) == before.channel(0, 1, cc) by {
            assert(pixel_offset(g.width as int, 0, 0) == 0);
            assert(pixel_offset(g.width as int, 0, 1) == si * 4);
        }
        assert(g.pixel(0, 0) =~= before.pixel(0, 0));
        assert(g.pixel(0, 1) =~= before.pixel(0, 1));
        assert forall|j: int| 0 <= j < total && j != i implies g.data@[stream_pos(si, si, j)]
            == before.data@[stream_pos(si, si, j)] by {
            lemma_stream_pos(si, si, j);
        }
        i = i + 1;
    }
    assert(g.stream() =~= zero_padded(payload@, g.stream().len()));
    assert(grid_bytes(g).take(n + 8int) =~= be_bytes(n as u64) + payload@);
    proof {
        lemma_be_round_trip(n as u64);
        lemma_unpack_pack(g, payload@);
    }
    g
}

/// Packs `payload` when its grid fits in memory, and fails with `TooLarge`
/// otherwise.
pub fn try_pack(payload: &Vec<u8>) -> (r: Result<PixelGrid, FtoiError>)
    ensures
        r is Ok <==> packable(payload@.len()),
        r matches Ok(g) ==> is_packing_of(g, payload@),
        r matches Err(e) ==> e == FtoiError::TooLarge,
{
    let s = grid_side(payload.len());
    if s > 0xffff_ffff {
        assert(s * s * 4 > u64::MAX) by (nonlinear_arith)
            requires
                s > 0xffff_ffff,
        ;
        return Err(FtoiError::TooLarge);
    }
    assert(s * s * 4 <= 0x4_0000_0000_0000_0000) by (nonlinear_arith)
        requires
            s <= 0xffff_ffff,
    ;
    let area: u128 = s as u128 * s as u128 * 4;
    if area > usize::MAX as u128 {
        return Err(FtoiError::TooLarge);
    }
    Ok(pack(payload))
}

/// Recovers the payload that `g` holds.
pub fn unpack(g: &PixelGrid) -> (r: Result<Vec<u8>, FtoiError>)
    requires
        g.wf(),
    ensures
        r matches Ok(v) ==> unpacked(*g) == Ok::<Seq<u8>, FtoiError>(v@),
        r matches Err(e) ==> unpacked(*g) == Err::<Seq<u8>, FtoiError>(e),
{
    if g.width < 1 || g.height < 2 {
        return Err(FtoiError::MalformedHeader);
    }
    let p0 = g.get_pixel(0, 0);
    let p1 = g.get_pixel(0, 1);
    let hb = [p0[0], p0[1], p0[2], p0[3], p1[0], p1[1], p1[2], p1[3]];
    assert(hb@ =~= g.header());
    let n64 = header_value(&hb);
    assert(g.width * g.height >= 2) by (nonlinear_arith)
        requires
            g.width >= 1,
            g.height >= 2,
    ;
    let avail: usize = g.data.len() - 8;
    if n64 > avail as u64 {
        return Err(FtoiError::InsufficientData);
    }
    let n = n64 as usize;
    let ghost w = g.width as int;
    let ghost h = g.height as int;
    let mut out: Vec<u8> = Vec::new();
    let mut i: usize = 0;
    while i < n
        invariant
            g.wf(),
            g.width >= 1,
            g.height >= 2,
            w == g.width,
            h == g.height,
            n <= g.stream().len(),
            g.stream().len() == (w * h - 2) * 4,
            i <= n,
            out@ =~= g.stream().take(i as int),
        decreases n - i,
    {
        let k: u64 = (i / 4) as u64;
        let c: usize = i % 4;
        proof {
            lemma_stream_pos(w, h, i as int);
            assert(w * h <= u32::MAX as int * h) by (nonlinear_arith)
                requires
                    w <= u32::MAX,
                    h >= 0,
            ;
            lemma_slot_in_grid(w, h, k as int);
        }
        let (x, y) = slot_position(k, g.height);
        let o = g.offset(x, y);
        assert(o + c == stream_pos(w, h, i as int));
        out.push(g.data[o + c]);
        i = i + 1;
    }
    Ok(out)
}

/// Unpacking the grid that packs `b` gives `b` back.
pub proof fn lemma_unpack_pack(g: PixelGrid, b: Seq<u8>)
    requires
        is_packing_of(g, b),
    ensures
        unpacked(g) == Ok::<Seq<u8>, FtoiError>(b),
{
    lemma_side_of(b.len());
    lemma_be_round_trip(b.len() as u64);
    let s = g.width as int;
    assert(s * s * 4 >= b.len() + 8);
    assert(g.stream().take(b.len() as int) =~= b);
}

/// The header of the grid that packs `b` records the length of `b`.
pub proof fn lemma_header_records_length(g: PixelGrid, b: Seq<u8>)
    requires
        is_packing_of(g, b),
    ensures
        be_value(g.header()) == b.len(),
{
    lemma_be_round_trip(b.len() as u64);
}

/// Bytes after the first `n + 8` (header and payload) do not change what is
/// unpacked: any grid with the two header pixels (in particular any square
/// one) whose first `n + 8` bytes in visiting order are those that packing `b`
/// writes, the length header and then `b`, unpacks to `b`, however large it is
/// and whatever it holds beyond.
pub proof fn lemma_padding_neutral(b: Seq<u8>, h: PixelGrid)
    requires
        b.len() <= u64::MAX,
        h.wf(),
        h.width == h.height || h.height >= 2,
        h.data@.len() >= b.len() + 8,
        grid_bytes(h).take(b.len() + 8int) == be_bytes(b.len() as u64) + b,
    ensures
        unpacked(h) == Ok::<Seq<u8>, FtoiError>(b),
{
    let w = h.width as int;
    let hh = h.height as int;
    if w == hh {
        if w < 2 {
            assert(w * hh * 4 <= 4) by (nonlinear_arith)
                requires
                    w == hh,
                    0 <= w < 2,
            ;
        }
    } else {
        if w < 1 {
            assert(w * hh * 4 == 0) by (nonlinear_arith)
                requires
                    w == 0,
            ;
        }
    }
    assert(h.has_header());
    lemma_be_round_trip(b.len() as u64);
    assert(h.header().len() == 8);
    assert(h.header() =~= grid_bytes(h).take(b.len() + 8int).take(8));
    assert(h.header() =~= be_bytes(b.len() as u64));
    assert forall|i: int| 0 <= i < b.len() implies h.stream()[i] == b[i] by {
        assert(grid_bytes(h).take(b.len() + 8int)[i + 8] == grid_bytes(h)[i + 8]);
        assert(grid_bytes(h)[i + 8] == h.stream()[i]);
        assert((be_bytes(b.len() as u64) + b)[i + 8] == b[i]);
    }
    assert(h.stream().take(b.len() as int) =~= b);
}

} // verus!
