//! The fixed geometry of the format: the length header, the side of the grid
//! and the order in which payload pixels are visited.

use vstd::arithmetic::div_mod::{
    lemma_fundamental_div_mod, lemma_fundamental_div_mod_converse, lemma_multiply_divide_lt,
};
use vstd::prelude::*;

verus! {

/// Big-endian bytes of `n`, most significant first.
pub open spec fn be_bytes(n: u64) -> Seq<u8> {
    seq![
        (n >> 56u64) as u8,
        (n >> 48u64) as u8,
        (n >> 40u64) as u8,
        (n >> 32u64) as u8,
        (n >> 24u64) as u8,
        (n >> 16u64) as u8,
        (n >> 8u64) as u8,
        n as u8,
    ]
}

/// The number whose big-endian bytes are `b[0..8]`.
pub open spec fn be_value(b: Seq<u8>) -> u64 {
    (b[0] as u64) << 56u64 | (b[1] as u64) << 48u64 | (b[2] as u64) << 40u64 | (b[3] as u64)
        << 32u64 | (b[4] as u64) << 24u64 | (b[5] as u64) << 16u64 | (b[6] as u64) << 8u64
        | (b[7] as u64)
}

/// Reading back the big-endian bytes of a number gives the number.
pub proof fn lemma_be_round_trip(n: u64)
    ensures
        be_value(be_bytes(n)) == n,
{
    let b = be_bytes(n);
    let (b0, b1, b2, b3) = ((n >> 56u64) as u8, (n >> 48u64) as u8, (n >> 40u64) as u8, (n
        >> 32u64) as u8);
    let (b4, b5, b6, b7) = ((n >> 24u64) as u8, (n >> 16u64) as u8, (n >> 8u64) as u8, n as u8);
    assert(b[0] == b0 && b[1] == b1 && b[2] == b2 && b[3] == b3);
    assert(b[4] == b4 && b[5] == b5 && b[6] == b6 && b[7] == b7);
    assert((b0 as u64) << 56u64 | (b1 as u64) << 48u64 | (b2 as u64) << 40u64 | (b3 as u64)
        << 32u64 | (b4 as u64) << 24u64 | (b5 as u64) << 16u64 | (b6 as u64) << 8u64
        | (b7 as u64) == n) by (bit_vector)
        requires
            b0 == (n >> 56u64) as u8,
            b1 == (n >> 48u64) as u8,
            b2 == (n >> 40u64) as u8,
            b3 == (n >> 32u64) as u8,
            b4 == (n >> 24u64) as u8,
            b5 == (n >> 16u64) as u8,
            b6 == (n >> 8u64) as u8,
            b7 == n as u8,
    ;
}

/// The eight header bytes that record a payload of `n` bytes.
pub fn header_bytes(n: u64) -> (r: [u8; 8])
    ensures
        r@ == be_bytes(n),
{
    let r = [
        (n >> 56u64) as u8,
        (n >> 48u64) as u8,
        (n >> 40u64) as u8,
        (n >> 32u64) as u8,
        (n >> 24u64) as u8,
        (n >> 16u64) as u8,
        (n >> 8u64) as u8,
        n as u8,
    ];
    assert(r@ =~= be_bytes(n));
    r
}

/// The payload length recorded by eight header bytes.
pub fn header_value(b: &[u8; 8]) -> (r: u64)
    ensures
        r == be_value(b@),
{
    (b[0] as u64) << 56u64 | (b[1] as u64) << 48u64 | (b[2] as u64) << 40u64 | (b[3] as u64)
        << 32u64 | (b[4] as u64) << 24u64 | (b[5] as u64) << 16u64 | (b[6] as u64) << 8u64
        | (b[7] as u64)
}

/// A square grid of side `s` holds `n` payload bytes and the header.
pub open spec fn side_fits(n: nat, s: nat) -> bool {
    s * s * 4 >= n + 8
}

/// `s` is the smallest side that fits: `s = ceil(sqrt((n + 8) / 4))`.
pub open spec fn is_grid_side(n: nat, s: nat) -> bool {
    side_fits(n, s) && (s == 0 || !side_fits(n, (s - 1) as nat))
}

proof fn lemma_least_side_below(n: nat, t: nat)
    requires
        side_fits(n, t),
    ensures
        exists|s: nat| s <= t && is_grid_side(n, s),
    decreases t,
{
    if t == 0 || !side_fits(n, (t - 1) as nat) {
        assert(is_grid_side(n, t));
    } else {
        lemma_least_side_below(n, (t - 1) as nat);
    }
}

proof fn lemma_side_fits_monotone(n: nat, a: nat, b: nat)
    requires
        a <= b,
        side_fits(n, a),
    ensures
        side_fits(n, b),
{
    assert(a * a <= b * b) by (nonlinear_arith)
        requires
            a <= b,
    ;
}

/// The least side is unique.
pub proof fn lemma_grid_side_unique(n: nat, s1: nat, s2: nat)
    requires
        is_grid_side(n, s1),
        is_grid_side(n, s2),
    ensures
        s1 == s2,
{
    if s1 < s2 {
        lemma_side_fits_monotone(n, s1, (s2 - 1) as nat);
    } else if s2 < s1 {
        lemma_side_fits_monotone(n, s2, (s1 - 1) as nat);
    }
}

/// The side of the grid that packs a payload of `n` bytes.
pub open spec fn side_of(n: nat) -> nat {
    choose|s: nat| is_grid_side(n, s)
}

/// `side_of` is the least side that fits.
pub proof fn lemma_side_of(n: nat)
    ensures
        is_grid_side(n, side_of(n)),
        side_of(n) >= 2,
{
    assert(side_fits(n, n + 8)) by (nonlinear_arith);
    lemma_least_side_below(n, n + 8);
    let s = side_of(n);
    if s < 2 {
        assert(s * s * 4 <= 4) by (nonlinear_arith)
            requires
                s < 2,
        ;
    }
}

/// Computes the side of the grid for a payload of `n` bytes by bisection.
pub fn grid_side(n: usize) -> (s: u64)
    ensures
        s == side_of(n as nat),
        is_grid_side(n as nat, s as nat),
{
    let need: u128 = n as u128 + 8;
    let mut lo: u64 = 0;
    let mut hi: u64 = 0x1_0000_0000;
    assert(0x1_0000_0000u64 * 0x1_0000_0000u64 * 4 >= n + 8) by (nonlinear_arith)
        requires
            n <= u64::MAX,
    ;
    while hi - lo > 1
        invariant
            lo < hi <= 0x1_0000_0000,
            need == n + 8,
            !side_fits(n as nat, lo as nat),
            side_fits(n as nat, hi as nat),
        decreases hi - lo,
    {
        let mid: u64 = lo + (hi - lo) / 2;
        assert(mid as nat * mid as nat * 4 <= 0x4_0000_0000_0000_0000) by (nonlinear_arith)
            requires
                mid <= 0x1_0000_0000,
        ;
        let area: u128 = mid as u128 * mid as u128 * 4;
        if area >= need {
            hi = mid;
        } else {
            lo = mid;
        }
    }
    proof {
        assert(is_grid_side(n as nat, hi as nat));
        lemma_side_of(n as nat);
        lemma_grid_side_unique(n as nat, hi as nat, side_of(n as nat));
    }
    hi
}

/// Pixel coordinates `(x, y)` of the `k`-th payload pixel in a grid of the
/// given height. Pixels are visited column by column (`x` outer, `y` inner);
/// the two header pixels `(0, 0)` and `(0, 1)` come first and are skipped.
pub open spec fn slot_xy(k: int, height: int) -> (int, int) {
    ((k + 2) / height, (k + 2) % height)
}

/// The visiting order shared by packing and unpacking.
pub fn slot_position(k: u64, height: u32) -> (r: (u32, u32))
    requires
        height >= 2,
        k + 2 <= u32::MAX as int * height,
    ensures
        r.0 as int == slot_xy(k as int, height as int).0,
        r.1 as int == slot_xy(k as int, height as int).1,
{
    let l: u64 = k + 2;
    let x: u64 = l / height as u64;
    let y: u64 = l % height as u64;
    assert(x <= u32::MAX) by (nonlinear_arith)
        requires
            x as int == l as int / height as int,
            l <= u32::MAX as int * height,
            height >= 2,
    ;
    (x as u32, y as u32)
}

/// Index of channel 0 of pixel `(x, y)` in row-major RGBA bytes.
pub open spec fn pixel_offset(width: int, x: int, y: int) -> int {
    (y * width + x) * 4
}

/// Index in row-major RGBA bytes of the `j`-th byte of the payload stream.
pub open spec fn stream_pos(width: int, height: int, j: int) -> int {
    pixel_offset(width, slot_xy(j / 4, height).0, slot_xy(j / 4, height).1) + j % 4
}

/// Where the `k`-th payload pixel lies: inside the grid, and not on a header pixel.
pub proof fn lemma_slot_in_grid(width: int, height: int, k: int)
    requires
        width >= 1,
        height >= 2,
        0 <= k < width * height - 2,
    ensures
        0 <= slot_xy(k, height).0 < width,
        0 <= slot_xy(k, height).1 < height,
        slot_xy(k, height).0 * height + slot_xy(k, height).1 == k + 2,
        slot_xy(k, height).0 == 0 ==> slot_xy(k, height).1 >= 2,
        0 <= pixel_offset(width, slot_xy(k, height).0, slot_xy(k, height).1),
        pixel_offset(width, slot_xy(k, height).0, slot_xy(k, height).1) + 4 <= width * height * 4,
{
    let l = k + 2;
    let (x, y) = slot_xy(k, height);
    lemma_fundamental_div_mod(l, height);
    assert(l < height * width) by (nonlinear_arith)
        requires
            l < width * height,
    ;
    lemma_multiply_divide_lt(l, height, width);
    assert(0 <= x) by (nonlinear_arith)
        requires
            x == l / height,
            l >= 0,
            height > 0,
    ;
    assert(x * height + y == l) by (nonlinear_arith)
        requires
            l == height * x + y,
    ;
    if x == 0 {
        assert(y == l);
    }
    assert(0 <= y * width + x && y * width + x + 1 <= width * height) by (nonlinear_arith)
        requires
            0 <= x < width,
            0 <= y < height,
    ;
}

/// Distinct payload bytes occupy distinct grid bytes, none of them in the header.
pub proof fn lemma_stream_pos(width: int, height: int, j: int)
    requires
        width >= 1,
        height >= 2,
        0 <= j < (width * height - 2) * 4,
    ensures
        0 <= stream_pos(width, height, j) < width * height * 4,
        stream_pos(width, height, j) >= 4,
        !(width * 4 <= stream_pos(width, height, j) < width * 4 + 4),
        forall|i: int|
            0 <= i < (width * height - 2) * 4 && i != j ==> stream_pos(width, height, i)
                != stream_pos(width, height, j),
{
    let k = j / 4;
    let c = j % 4;
    lemma_fundamental_div_mod(j, 4);
    lemma_slot_in_grid(width, height, k);
    let (x, y) = slot_xy(k, height);
    let p = stream_pos(width, height, j);
    assert(p == (y * width + x) * 4 + c);
    if y == 0 {
        assert(x >= 1);
        assert(p == x * 4 + c) by (nonlinear_arith)
            requires
                p == (y * width + x) * 4 + c,
                y == 0,
        ;
        assert(p < width * 4);
    } else {
        assert(y * width >= width) by (nonlinear_arith)
            requires
                y >= 1,
                width >= 1,
        ;
    }
    if y == 1 {
        assert(x >= 1);
        assert(p >= width * 4 + 4);
    } else if y >= 2 {
        assert(y * width >= 2 * width) by (nonlinear_arith)
            requires
                y >= 2,
                width >= 1,
        ;
        assert(p >= width * 4 + 4);
    }
    assert forall|i: int|
        0 <= i < (width * height - 2) * 4 && i != j implies stream_pos(width, height, i)
            != stream_pos(width, height, j) by {
        let k2 = i / 4;
        let c2 = i % 4;
        lemma_fundamental_div_mod(i, 4);
        lemma_slot_in_grid(width, height, k2);
        let (x2, y2) = slot_xy(k2, height);
        if stream_pos(width, height, i) == p {
            lemma_fundamental_div_mod_converse(p, 4, y * width + x, c);
            lemma_fundamental_div_mod_converse(p, 4, y2 * width + x2, c2);
            lemma_fundamental_div_mod_converse(y * width + x, width, y, x);
            lemma_fundamental_div_mod_converse(y * width + x, width, y2, x2);
            assert(k2 == k);
        }
    }
}

} // verus!
