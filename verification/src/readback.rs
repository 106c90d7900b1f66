use vstd::prelude::*;

verus! {

/// `x / a` rounded up.
pub open spec fn ceil_div(x: nat, a: nat) -> nat
    recommends
        a > 0,
{
    if x % a == 0 {
        x / a
    } else {
        x / a + 1
    }
}

/// Bytes per row of a `width`-pixel, 4-byte-per-pixel row once padded up to a
/// multiple of `align`.
pub open spec fn spec_padded_row_bytes(width: nat, align: nat) -> nat {
    ceil_div(4 * width, align) * align
}

/// Bytes per row of a 4-byte-per-pixel row of `width` pixels, rounded up to a
/// multiple of `align` (the row alignment a texture-to-buffer copy demands).
pub fn padded_row_bytes(width: u32, align: u32) -> (p: u32)
    requires
        align > 0,
        4 * width <= u32::MAX,
        spec_padded_row_bytes(width as nat, align as nat) <= u32::MAX,
    ensures
        p == spec_padded_row_bytes(width as nat, align as nat),
        p % align == 0,
        4 * width <= p < 4 * width + align,
{
    let unpadded = width * 4;
    let q = unpadded / align;
    let rows = if unpadded % align == 0 { q } else { q + 1 };
    proof {
        let u = unpadded as int;
        let a = align as int;
        assert(u == q * a + u % a) by (nonlinear_arith)
            requires
                a > 0,
                q == u / a,
        ;
        assert((rows * a) % a == 0) by (nonlinear_arith)
            requires
                a > 0,
        ;
        if u % a == 0 {
            assert(rows * a == u);
        } else {
            assert(rows * a == q * a + a) by (nonlinear_arith)
                requires
                    rows == q + 1,
            ;
        }
    }
    rows * align
}

/// Which source channel of a BGRA pixel feeds RGBA channel `c`.
pub open spec fn swizzle(c: int) -> int {
    if c == 0 {
        2
    } else if c == 2 {
        0
    } else {
        c
    }
}

/// Position of channel `c` of pixel `p` of row `r` in a tightly packed RGBA
/// image `w` pixels wide.
pub open spec fn packed_index(w: int, r: int, p: int, c: int) -> int {
    (r * w + p) * 4 + c
}

/// Position of channel `c` of pixel `p` of row `r` in a BGRA image whose rows
/// are `padded` bytes apart.
pub open spec fn padded_index(padded: int, r: int, p: int, c: int) -> int {
    r * padded + p * 4 + c
}

proof fn lemma_packed_below(w: int, r2: int, p2: int, c: int, r: int)
    requires
        0 <= r2 < r,
        0 <= p2 < w,
        0 <= c < 4,
    ensures
        0 <= packed_index(w, r2, p2, c) < (r * w) * 4,
{
    assert(r2 * w + p2 < r * w) by (nonlinear_arith)
        requires
            0 <= r2 < r,
            0 <= p2 < w,
    ;
    assert(0 <= r2 * w) by (nonlinear_arith)
        requires
            0 <= r2,
            0 <= w,
    ;
}

proof fn lemma_padded_in_bounds(padded: int, h: int, r: int, p: int, w: int)
    requires
        0 <= r < h,
        0 <= p < w,
        4 * w <= padded,
    ensures
        0 <= padded_index(padded, r, p, 0),
        padded_index(padded, r, p, 3) < padded * h,
{
    assert(r * padded + padded <= h * padded) by (nonlinear_arith)
        requires
            0 <= r < h,
            0 <= padded,
    ;
    assert(0 <= r * padded) by (nonlinear_arith)
        requires
            0 <= r,
            0 <= padded,
    ;
}

/// Drop the row padding of a BGRA8 readback and swizzle it to tightly packed
/// RGBA8, row-major: red comes from the source's third byte, blue from its first.
pub fn rgba_from_padded_bgra(data: &[u8], width: u32, height: u32, padded: u32) -> (out: Vec<u8>)
    requires
        4 * width <= padded,
        padded * height <= data@.len(),
    ensures
        out@.len() == 4 * width * height,
        forall|r: int, p: int, c: int|
            0 <= r < height && 0 <= p < width && 0 <= c < 4 ==> #[trigger] out@[packed_index(
                width as int,
                r,
                p,
                c,
            )] == data@[padded_index(padded as int, r, p, swizzle(c))],
{
    let w = width as usize;
    let h = height as usize;
    let pad = padded as usize;
    let dlen = data.len();
    let mut out: Vec<u8> = Vec::new();
    let mut row: usize = 0;
    while row < h
        invariant
            w == width,
            h == height,
            pad == padded,
            4 * width <= padded,
            padded * height <= data@.len(),
            dlen == data@.len(),
            row <= h,
            out@.len() == (row * w) * 4,
            forall|r: int, p: int, c: int|
                0 <= r < row && 0 <= p < w && 0 <= c < 4 ==> #[trigger] out@[packed_index(
                    w as int,
                    r,
                    p,
                    c,
                )] == data@[padded_index(pad as int, r, p, swizzle(c))],
        decreases h - row,
    {
        let mut px: usize = 0;
        let ghost before = out@;
        while px < w
            invariant
                w == width,
                h == height,
                pad == padded,
                4 * width <= padded,
                padded * height <= data@.len(),
                dlen == data@.len(),
                row < h,
                forall|r: int, p: int, c: int|
                    0 <= r < row && 0 <= p < w && 0 <= c < 4 ==> #[trigger] before[packed_index(
                        w as int,
                        r,
                        p,
                        c,
                    )] == data@[padded_index(pad as int, r, p, swizzle(c))],
                px <= w,
                before.len() == (row * w) * 4,
                out@.len() == (row * w + px) * 4,
                forall|i: int| 0 <= i < before.len() ==> out@[i] == before[i],
                forall|p: int, c: int|
                    0 <= p < px && 0 <= c < 4 ==> #[trigger] out@[packed_index(w as int, row as int, p, c)]
                        == data@[padded_index(pad as int, row as int, p, swizzle(c))],
            decreases w - px,
        {
            proof {
                lemma_padded_in_bounds(pad as int, h as int, row as int, px as int, w as int);
            }
            assert(row * pad + px * 4 + 3 < data@.len());
            let s = row * pad + px * 4;
            let ghost base = out@.len();
            out.push(data[s + 2]);
            out.push(data[s + 1]);
            out.push(data[s]);
            out.push(data[s + 3]);
            proof {
                assert forall|p: int, c: int|
                    0 <= p < px + 1 && 0 <= c < 4 implies #[trigger] out@[packed_index(
                        w as int,
                        row as int,
                        p,
                        c,
                    )] == data@[padded_index(pad as int, row as int, p, swizzle(c))] by {
                    if p == px {
                        assert(packed_index(w as int, row as int, p, c) == base + c);
                    } else {
                        assert(packed_index(w as int, row as int, p, c) < base);
                    }
                }
            }
            px = px + 1;
        }
        proof {
            assert forall|r: int, p: int, c: int|
                0 <= r < row + 1 && 0 <= p < w && 0 <= c < 4 implies #[trigger] out@[packed_index(
                    w as int,
                    r,
                    p,
                    c,
                )] == data@[padded_index(pad as int, r, p, swizzle(c))] by {
                if r < row {
                    lemma_packed_below(w as int, r, p, c, row as int);
                    assert(out@[packed_index(w as int, r, p, c)] == before[packed_index(w as int, r, p, c)]);
                } else {
                    assert(r == row);
                }
            }
        }
        assert((row * w + w) * 4 == ((row + 1) * w) * 4) by (nonlinear_arith);
        row = row + 1;
    }
    assert((h * w) * 4 == 4 * width * height) by (nonlinear_arith)
        requires
            h == height,
            w == width,
    ;
    out
}

} // verus!
