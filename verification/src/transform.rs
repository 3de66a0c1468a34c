use vstd::prelude::*;
use vstd::arithmetic::div_mod::lemma_fundamental_div_mod;
use vstd::arithmetic::div_mod::lemma_fundamental_div_mod_converse;

verus! {

/// The orientation a compositor applies to an output, as reported on the
/// wire: rotations are clockwise, flipped variants flip horizontally first
/// and then rotate.
#[derive(Debug, Clone, Copy, PartialEq, Eq, Structural)]
pub enum Transform {
    Normal,
    R90,
    R180,
    R270,
    Flipped,
    FlippedR90,
    FlippedR180,
    FlippedR270,
}

impl Transform {
    /// Whether this transform swaps the width and height of an image.
    pub open spec fn spec_swaps_dimensions(self) -> bool {
        match self {
            Transform::R90 | Transform::R270 | Transform::FlippedR90
                | Transform::FlippedR270 => true,
            _ => false,
        }
    }

    pub fn swaps_dimensions(self) -> (r: bool)
        ensures
            r == self.spec_swaps_dimensions(),
    {
        match self {
            Transform::R90 | Transform::R270 | Transform::FlippedR90
                | Transform::FlippedR270 => true,
            _ => false,
        }
    }

    /// The transform that undoes this one. Every flipped variant is a
    /// reflection and therefore its own inverse; rotations invert pairwise.
    pub open spec fn spec_inverse(self) -> Transform {
        match self {
            Transform::R90 => Transform::R270,
            Transform::R270 => Transform::R90,
            t => t,
        }
    }

    pub fn inverse(self) -> (r: Transform)
        ensures
            r == self.spec_inverse(),
    {
        match self {
            Transform::R90 => Transform::R270,
            Transform::R270 => Transform::R90,
            t => t,
        }
    }
}

/// The byte at channel `b` of the pixel at `(x, y)` in a packed RGBA image
/// of width `w`.
pub open spec fn spec_byte(s: Seq<u8>, w: int, x: int, y: int, b: int) -> u8 {
    s[4 * (y * w + x) + b]
}

/// A packed RGBA image rotated 90 degrees clockwise; the result is
/// `h` pixels wide. The pixel at `(nx, ny)` of the result is the pixel at
/// `(ny, h - 1 - nx)` of the source.
pub open spec fn spec_rotate_90(s: Seq<u8>, w: int, h: int) -> Seq<u8> {
    Seq::new(
        (4 * w * h) as nat,
        |i: int|
            {
                let p = i / 4;
                let b = i % 4;
                let nx = p % h;
                let ny = p / h;
                spec_byte(s, w, ny, h - 1 - nx, b)
            },
    )
}

/// A packed RGBA image rotated 180 degrees; dimensions are unchanged.
pub open spec fn spec_rotate_180(s: Seq<u8>, w: int, h: int) -> Seq<u8> {
    Seq::new(
        (4 * w * h) as nat,
        |i: int|
            {
                let p = i / 4;
                let b = i % 4;
                let nx = p % w;
                let ny = p / w;
                spec_byte(s, w, w - 1 - nx, h - 1 - ny, b)
            },
    )
}

/// A packed RGBA image rotated 270 degrees clockwise; the result is
/// `h` pixels wide.
pub open spec fn spec_rotate_270(s: Seq<u8>, w: int, h: int) -> Seq<u8> {
    Seq::new(
        (4 * w * h) as nat,
        |i: int|
            {
                let p = i / 4;
                let b = i % 4;
                let nx = p % h;
                let ny = p / h;
                spec_byte(s, w, w - 1 - ny, nx, b)
            },
    )
}

/// A packed RGBA image mirrored left to right.
pub open spec fn spec_flip_horizontal(s: Seq<u8>, w: int, h: int) -> Seq<u8> {
    Seq::new(
        (4 * w * h) as nat,
        |i: int|
            {
                let p = i / 4;
                let b = i % 4;
                let nx = p % w;
                let ny = p / w;
                spec_byte(s, w, w - 1 - nx, ny, b)
            },
    )
}

/// A packed RGBA image mirrored top to bottom.
pub open spec fn spec_flip_vertical(s: Seq<u8>, w: int, h: int) -> Seq<u8> {
    Seq::new(
        (4 * w * h) as nat,
        |i: int|
            {
                let p = i / 4;
                let b = i % 4;
                let nx = p % w;
                let ny = p / w;
                spec_byte(s, w, nx, h - 1 - ny, b)
            },
    )
}

/// Every byte of the pixel at `(x, y)` lies inside a `w` by `h` image.
pub(crate) proof fn lemma_pixel_in_bounds(w: int, h: int, x: int, y: int)
    requires
        0 <= x < w,
        0 <= y < h,
    ensures
        0 <= 4 * (y * w + x),
        4 * (y * w + x) + 4 <= 4 * w * h,
{
    assert(0 <= 4 * (y * w + x) && 4 * (y * w + x) + 4 <= 4 * w * h) by (nonlinear_arith)
        requires
            0 <= x < w,
            0 <= y < h,
    ;
}

/// Decomposing the flat byte index of channel `b` of pixel `(nx, ny)` in an
/// image `nw` pixels wide recovers the channel, column and row.
pub(crate) proof fn lemma_pixel_decompose(nw: int, nx: int, ny: int, b: int)
    requires
        0 <= nx < nw,
        0 <= ny,
        0 <= b < 4,
    ensures
        (4 * (ny * nw + nx) + b) / 4 == ny * nw + nx,
        (4 * (ny * nw + nx) + b) % 4 == b,
        (ny * nw + nx) % nw == nx,
        (ny * nw + nx) / nw == ny,
{
    let p = ny * nw + nx;
    lemma_fundamental_div_mod_converse(4 * p + b, 4, p, b);
    lemma_fundamental_div_mod_converse(p, nw, ny, nx);
}

/// Any flat byte index of a `nw` by `nh` image splits into a channel, a
/// column and a row, and recomposes to the same index.
pub(crate) proof fn lemma_index_decompose(i: int, nw: int, nh: int)
    requires
        0 < nw,
        0 < nh,
        0 <= i < 4 * nw * nh,
    ensures
        0 <= i % 4 < 4,
        0 <= (i / 4) % nw < nw,
        0 <= (i / 4) / nw < nh,
        i == 4 * (((i / 4) / nw) * nw + (i / 4) % nw) + i % 4,
{
    lemma_fundamental_div_mod(i, 4);
    let p = i / 4;
    assert(0 <= i % 4 < 4) by {
        vstd::arithmetic::div_mod::lemma_mod_pos_bound(i, 4);
    }
    assert(0 <= p) by {
        vstd::arithmetic::div_mod::lemma_div_pos_is_pos(i, 4);
    }
    assert(p < nw * nh) by (nonlinear_arith)
        requires
            i < 4 * nw * nh,
            i == 4 * p + i % 4,
            0 <= i % 4,
    ;
    lemma_fundamental_div_mod(p, nw);
    assert(0 <= p % nw < nw) by {
        vstd::arithmetic::div_mod::lemma_mod_pos_bound(p, nw);
    }
    assert(0 <= p / nw) by {
        vstd::arithmetic::div_mod::lemma_div_pos_is_pos(p, nw);
    }
    assert(p / nw < nh) by (nonlinear_arith)
        requires
            p < nw * nh,
            p == nw * (p / nw) + p % nw,
            0 <= p % nw,
            0 < nw,
    ;
}

/// Appends the four bytes of the pixel at `(x, y)` of a packed RGBA image
/// to `out`.
pub(crate) fn push_pixel(out: &mut Vec<u8>, data: &[u8], width: usize, x: usize, y: usize) -> (base: Ghost<
    int,
>)
    requires
        4 * ((y as int) * (width as int) + x as int) + 4 <= data@.len(),
        0 <= (y as int) * (width as int) + x as int,
    ensures
        base@ == 4 * ((y as int) * (width as int) + x as int),
        final(out)@ == old(out)@ + data@.subrange(base@, base@ + 4),
{
    let ghost gbase: int = 4 * ((y as int) * (width as int) + x as int);
    let n = data.len();
    let p: usize = y * width + x;
    let base: usize = 4 * p;
    out.push(data[base]);
    out.push(data[base + 1]);
    out.push(data[base + 2]);
    out.push(data[base + 3]);
    proof {
        assert(final(out)@ =~= old(out)@ + data@.subrange(gbase, gbase + 4));
    }
    Ghost(gbase)
}

/// Rotates a packed RGBA image 90 degrees clockwise; the returned dimensions
/// are the swapped input dimensions.
pub fn rotate_90(data: &[u8], width: u32, height: u32) -> (r: (Vec<u8>, u32, u32))
    requires
        data@.len() == 4 * width * height,
    ensures
        r.0@ == spec_rotate_90(data@, width as int, height as int),
        r.1 == height,
        r.2 == width,
{
    let ghost g = spec_rotate_90(data@, width as int, height as int);
    let nw = height;
    let nh = width;
    proof {
        assert(4 * (nw as int) * (nh as int) == 4 * (width as int) * (height as int))
            by (nonlinear_arith)
            requires
                nw == height,
                nh == width,
        ;
    }
    let mut out: Vec<u8> = Vec::new();
    let mut ny: u32 = 0;
    while ny < nh
        invariant
            data@.len() == 4 * width * height,
            g == spec_rotate_90(data@, width as int, height as int),
            g.len() == 4 * (nw as int) * (nh as int),
            nw == height,
            nh == width,
            ny <= nh,
            out@.len() == 4 * ((ny as int) * (nw as int)),
            out@.len() <= g.len(),
            forall|i: int| 0 <= i < out@.len() ==> out@[i] == g[i],
        decreases nh - ny,
    {
        let mut nx: u32 = 0;
        proof {
            assert(4 * (ny as int) * (nw as int) == 4 * ((ny as int) * (nw as int) + 0))
                by (nonlinear_arith);
        }
        while nx < nw
            invariant
                data@.len() == 4 * width * height,
                g == spec_rotate_90(data@, width as int, height as int),
                g.len() == 4 * (nw as int) * (nh as int),
                nw == height,
                nh == width,
                ny < nh,
                nx <= nw,
                out@.len() == 4 * ((ny as int) * (nw as int) + nx as int),
                out@.len() <= g.len(),
                forall|i: int| 0 <= i < out@.len() ==> out@[i] == g[i],
            decreases nw - nx,
        {
            let sx = ny;
            let sy = nw - 1 - nx;
            proof {
                lemma_pixel_in_bounds(width as int, height as int, sx as int, sy as int);
                lemma_pixel_in_bounds(nw as int, nh as int, nx as int, ny as int);
            }
            let ghost old_out = out@;
            let base = push_pixel(&mut out, data, width as usize, sx as usize, sy as usize);
            proof {
                let q = (ny as int) * (nw as int) + nx as int;
                assert forall|i: int| 0 <= i < out@.len() implies out@[i] == g[i] by {
                    if i < old_out.len() {
                        assert(out@[i] == old_out[i]);
                    } else {
                        let b = i - 4 * q;
                        lemma_pixel_decompose(nw as int, nx as int, ny as int, b);
                        assert(out@[i] == data@[base@ + b]);
                        assert(g[i] == spec_byte(
                            data@,
                            width as int,
                            ny as int,
                            nw as int - 1 - nx as int,
                            b,
                        ));
                    }
                }
                assert(out@.len() == 4 * ((ny as int) * (nw as int) + nx as int + 1));
                assert(out@.len() <= g.len()) by (nonlinear_arith)
                    requires
                        out@.len() == 4 * ((ny as int) * (nw as int) + nx as int + 1),
                        g.len() == 4 * (nw as int) * (nh as int),
                        0 <= nx as int,
                        (nx as int) < (nw as int),
                        0 <= ny as int,
                        (ny as int) < (nh as int),
                ;
            }
            nx += 1;
        }
        proof {
            assert(4 * ((ny as int) * (nw as int) + nw as int) == 4 * ((ny as int + 1) * (
            nw as int))) by (nonlinear_arith);
        }
        ny += 1;
    }
    proof {
        assert(4 * ((nh as int) * (nw as int)) == 4 * (nw as int) * (nh as int))
            by (nonlinear_arith);
    }
    proof {
        assert(out@ =~= g);
    }
    (out, nw, nh)
}

/// Rotates a packed RGBA image 180 degrees; dimensions are unchanged.
pub fn rotate_180(data: &[u8], width: u32, height: u32) -> (r: (Vec<u8>, u32, u32))
    requires
        data@.len() == 4 * width * height,
    ensures
        r.0@ == spec_rotate_180(data@, width as int, height as int),
        r.1 == width,
        r.2 == height,
{
    let ghost g = spec_rotate_180(data@, width as int, height as int);
    let nw = width;
    let nh = height;
    proof {
        assert(4 * (nw as int) * (nh as int) == 4 * (width as int) * (height as int))
            by (nonlinear_arith)
            requires
                nw == width,
                nh == height,
        ;
    }
    let mut out: Vec<u8> = Vec::new();
    let mut ny: u32 = 0;
    while ny < nh
        invariant
            data@.len() == 4 * width * height,
            g == spec_rotate_180(data@, width as int, height as int),
            g.len() == 4 * (nw as int) * (nh as int),
            nw == width,
            nh == height,
            ny <= nh,
            out@.len() == 4 * ((ny as int) * (nw as int)),
            out@.len() <= g.len(),
            forall|i: int| 0 <= i < out@.len() ==> out@[i] == g[i],
        decreases nh - ny,
    {
        let mut nx: u32 = 0;
        proof {
            assert(4 * (ny as int) * (nw as int) == 4 * ((ny as int) * (nw as int) + 0))
                by (nonlinear_arith);
        }
        while nx < nw
            invariant
                data@.len() == 4 * width * height,
                g == spec_rotate_180(data@, width as int, height as int),
                g.len() == 4 * (nw as int) * (nh as int),
                nw == width,
                nh == height,
                ny < nh,
                nx <= nw,
                out@.len() == 4 * ((ny as int) * (nw as int) + nx as int),
                out@.len() <= g.len(),
                forall|i: int| 0 <= i < out@.len() ==> out@[i] == g[i],
            decreases nw - nx,
        {
            let sx = nw - 1 - nx;
            let sy = nh - 1 - ny;
            proof {
                lemma_pixel_in_bounds(width as int, height as int, sx as int, sy as int);
                lemma_pixel_in_bounds(nw as int, nh as int, nx as int, ny as int);
            }
            let ghost old_out = out@;
            let base = push_pixel(&mut out, data, width as usize, sx as usize, sy as usize);
            proof {
                let q = (ny as int) * (nw as int) + nx as int;
                assert forall|i: int| 0 <= i < out@.len() implies out@[i] == g[i] by {
                    if i < old_out.len() {
                        assert(out@[i] == old_out[i]);
                    } else {
                        let b = i - 4 * q;
                        lemma_pixel_decompose(nw as int, nx as int, ny as int, b);
                        assert(out@[i] == data@[base@ + b]);
                        assert(g[i] == spec_byte(
                            data@,
                            width as int,
                            nw as int - 1 - nx as int,
                            nh as int - 1 - ny as int,
                            b,
                        ));
                    }
                }
                assert(out@.len() == 4 * ((ny as int) * (nw as int) + nx as int + 1));
                assert(out@.len() <= g.len()) by (nonlinear_arith)
                    requires
                        out@.len() == 4 * ((ny as int) * (nw as int) + nx as int + 1),
                        g.len() == 4 * (nw as int) * (nh as int),
                        0 <= nx as int,
                        (nx as int) < (nw as int),
                        0 <= ny as int,
                        (ny as int) < (nh as int),
                ;
            }
            nx += 1;
        }
        proof {
            assert(4 * ((ny as int) * (nw as int) + nw as int) == 4 * ((ny as int + 1) * (
            nw as int))) by (nonlinear_arith);
        }
        ny += 1;
    }
    proof {
        assert(4 * ((nh as int) * (nw as int)) == 4 * (nw as int) * (nh as int))
            by (nonlinear_arith);
    }
    proof {
        assert(out@ =~= g);
    }
    (out, nw, nh)
}

/// Rotates a packed RGBA image 270 degrees clockwise; the returned
/// dimensions are the swapped input dimensions.
pub fn rotate_270(data: &[u8], width: u32, height: u32) -> (r: (Vec<u8>, u32, u32))
    requires
        data@.len() == 4 * width * height,
    ensures
        r.0@ == spec_rotate_270(data@, width as int, height as int),
        r.1 == height,
        r.2 == width,
{
    let ghost g = spec_rotate_270(data@, width as int, height as int);
    let nw = height;
    let nh = width;
    proof {
        assert(4 * (nw as int) * (nh as int) == 4 * (width as int) * (height as int))
            by (nonlinear_arith)
            requires
                nw == height,
                nh == width,
        ;
    }
    let mut out: Vec<u8> = Vec::new();
    let mut ny: u32 = 0;
    while ny < nh
        invariant
            data@.len() == 4 * width * height,
            g == spec_rotate_270(data@, width as int, height as int),
            g.len() == 4 * (nw as int) * (nh as int),
            nw == height,
            nh == width,
            ny <= nh,
            out@.len() == 4 * ((ny as int) * (nw as int)),
            out@.len() <= g.len(),
            forall|i: int| 0 <= i < out@.len() ==> out@[i] == g[i],
        decreases nh - ny,
    {
        let mut nx: u32 = 0;
        proof {
            assert(4 * (ny as int) * (nw as int) == 4 * ((ny as int) * (nw as int) + 0))
                by (nonlinear_arith);
        }
        while nx < nw
            invariant
                data@.len() == 4 * width * height,
                g == spec_rotate_270(data@, width as int, height as int),
                g.len() == 4 * (nw as int) * (nh as int),
                nw == height,
                nh == width,
                ny < nh,
                nx <= nw,
                out@.len() == 4 * ((ny as int) * (nw as int) + nx as int),
                out@.len() <= g.len(),
                forall|i: int| 0 <= i < out@.len() ==> out@[i] == g[i],
            decreases nw - nx,
        {
            let sx = nh - 1 - ny;
            let sy = nx;
            proof {
                lemma_pixel_in_bounds(width as int, height as int, sx as int, sy as int);
                lemma_pixel_in_bounds(nw as int, nh as int, nx as int, ny as int);
            }
            let ghost old_out = out@;
            let base = push_pixel(&mut out, data, width as usize, sx as usize, sy as usize);
            proof {
                let q = (ny as int) * (nw as int) + nx as int;
                assert forall|i: int| 0 <= i < out@.len() implies out@[i] == g[i] by {
                    if i < old_out.len() {
                        assert(out@[i] == old_out[i]);
                    } else {
                        let b = i - 4 * q;
                        lemma_pixel_decompose(nw as int, nx as int, ny as int, b);
                        assert(out@[i] == data@[base@ + b]);
                        assert(g[i] == spec_byte(
                            data@,
                            width as int,
                            nh as int - 1 - ny as int,
                            nx as int,
                            b,
                        ));
                    }
                }
                assert(out@.len() == 4 * ((ny as int) * (nw as int) + nx as int + 1));
                assert(out@.len() <= g.len()) by (nonlinear_arith)
                    requires
                        out@.len() == 4 * ((ny as int) * (nw as int) + nx as int + 1),
                        g.len() == 4 * (nw as int) * (nh as int),
                        0 <= nx as int,
                        (nx as int) < (nw as int),
                        0 <= ny as int,
                        (ny as int) < (nh as int),
                ;
            }
            nx += 1;
        }
        proof {
            assert(4 * ((ny as int) * (nw as int) + nw as int) == 4 * ((ny as int + 1) * (
            nw as int))) by (nonlinear_arith);
        }
        ny += 1;
    }
    proof {
        assert(4 * ((nh as int) * (nw as int)) == 4 * (nw as int) * (nh as int))
            by (nonlinear_arith);
    }
    proof {
        assert(out@ =~= g);
    }
    (out, nw, nh)
}

/// Mirrors a packed RGBA image left to right; dimensions are unchanged.
pub fn flip_horizontal(data: &[u8], width: u32, height: u32) -> (r: (Vec<u8>, u32, u32))
    requires
        data@.len() == 4 * width * height,
    ensures
        r.0@ == spec_flip_horizontal(data@, width as int, height as int),
        r.1 == width,
        r.2 == height,
{
    let ghost g = spec_flip_horizontal(data@, width as int, height as int);
    let nw = width;
    let nh = height;
    proof {
        assert(4 * (nw as int) * (nh as int) == 4 * (width as int) * (height as int))
            by (nonlinear_arith)
            requires
                nw == width,
                nh == height,
        ;
    }
    let mut out: Vec<u8> = Vec::new();
    let mut ny: u32 = 0;
    while ny < nh
        invariant
            data@.len() == 4 * width * height,
            g == spec_flip_horizontal(data@, width as int, height as int),
            g.len() == 4 * (nw as int) * (nh as int),
            nw == width,
            nh == height,
            ny <= nh,
            out@.len() == 4 * ((ny as int) * (nw as int)),
            out@.len() <= g.len(),
            forall|i: int| 0 <= i < out@.len() ==> out@[i] == g[i],
        decreases nh - ny,
    {
        let mut nx: u32 = 0;
        proof {
            assert(4 * (ny as int) * (nw as int) == 4 * ((ny as int) * (nw as int) + 0))
                by (nonlinear_arith);
        }
        while nx < nw
            invariant
                data@.len() == 4 * width * height,
                g == spec_flip_horizontal(data@, width as int, height as int),
                g.len() == 4 * (nw as int) * (nh as int),
                nw == width,
                nh == height,
                ny < nh,
                nx <= nw,
                out@.len() == 4 * ((ny as int) * (nw as int) + nx as int),
                out@.len() <= g.len(),
                forall|i: int| 0 <= i < out@.len() ==> out@[i] == g[i],
            decreases nw - nx,
        {
            let sx = nw - 1 - nx;
            let sy = ny;
            proof {
                lemma_pixel_in_bounds(width as int, height as int, sx as int, sy as int);
                lemma_pixel_in_bounds(nw as int, nh as int, nx as int, ny as int);
            }
            let ghost old_out = out@;
            let base = push_pixel(&mut out, data, width as usize, sx as usize, sy as usize);
            proof {
                let q = (ny as int) * (nw as int) + nx as int;
                assert forall|i: int| 0 <= i < out@.len() implies out@[i] == g[i] by {
                    if i < old_out.len() {
                        assert(out@[i] == old_out[i]);
                    } else {
                        let b = i - 4 * q;
                        lemma_pixel_decompose(nw as int, nx as int, ny as int, b);
                        assert(out@[i] == data@[base@ + b]);
                        assert(g[i] == spec_byte(
                            data@,
                            width as int,
                            nw as int - 1 - nx as int,
                            ny as int,
                            b,
                        ));
                    }
                }
                assert(out@.len() == 4 * ((ny as int) * (nw as int) + nx as int + 1));
                assert(out@.len() <= g.len()) by (nonlinear_arith)
                    requires
                        out@.len() == 4 * ((ny as int) * (nw as int) + nx as int + 1),
                        g.len() == 4 * (nw as int) * (nh as int),
                        0 <= nx as int,
                        (nx as int) < (nw as int),
                        0 <= ny as int,
                        (ny as int) < (nh as int),
                ;
            }
            nx += 1;
        }
        proof {
            assert(4 * ((ny as int) * (nw as int) + nw as int) == 4 * ((ny as int + 1) * (
            nw as int))) by (nonlinear_arith);
        }
        ny += 1;
    }
    proof {
        assert(4 * ((nh as int) * (nw as int)) == 4 * (nw as int) * (nh as int))
            by (nonlinear_arith);
    }
    proof {
        assert(out@ =~= g);
    }
    (out, nw, nh)
}

/// Mirrors a packed RGBA image top to bottom; dimensions are unchanged.
pub fn flip_vertical(data: &[u8], width: u32, height: u32) -> (r: (Vec<u8>, u32, u32))
    requires
        data@.len() == 4 * width * height,
    ensures
        r.0@ == spec_flip_vertical(data@, width as int, height as int),
        r.1 == width,
        r.2 == height,
{
    let ghost g = spec_flip_vertical(data@, width as int, height as int);
    let nw = width;
    let nh = height;
    proof {
        assert(4 * (nw as int) * (nh as int) == 4 * (width as int) * (height as int))
            by (nonlinear_arith)
            requires
                nw == width,
                nh == height,
        ;
    }
    let mut out: Vec<u8> = Vec::new();
    let mut ny: u32 = 0;
    while ny < nh
        invariant
            data@.len() == 4 * width * height,
            g == spec_flip_vertical(data@, width as int, height as int),
            g.len() == 4 * (nw as int) * (nh as int),
            nw == width,
            nh == height,
            ny <= nh,
            out@.len() == 4 * ((ny as int) * (nw as int)),
            out@.len() <= g.len(),
            forall|i: int| 0 <= i < out@.len() ==> out@[i] == g[i],
        decreases nh - ny,
    {
        let mut nx: u32 = 0;
        proof {
            assert(4 * (ny as int) * (nw as int) == 4 * ((ny as int) * (nw as int) + 0))
                by (nonlinear_arith);
        }
        while nx < nw
            invariant
                data@.len() == 4 * width * height,
                g == spec_flip_vertical(data@, width as int, height as int),
                g.len() == 4 * (nw as int) * (nh as int),
                nw == width,
                nh == height,
                ny < nh,
                nx <= nw,
                out@.len() == 4 * ((ny as int) * (nw as int) + nx as int),
                out@.len() <= g.len(),
                forall|i: int| 0 <= i < out@.len() ==> out@[i] == g[i],
            decreases nw - nx,
        {
            let sx = nx;
            let sy = nh - 1 - ny;
            proof {
                lemma_pixel_in_bounds(width as int, height as int, sx as int, sy as int);
                lemma_pixel_in_bounds(nw as int, nh as int, nx as int, ny as int);
            }
            let ghost old_out = out@;
            let base = push_pixel(&mut out, data, width as usize, sx as usize, sy as usize);
            proof {
                let q = (ny as int) * (nw as int) + nx as int;
                assert forall|i: int| 0 <= i < out@.len() implies out@[i] == g[i] by {
                    if i < old_out.len() {
                        assert(out@[i] == old_out[i]);
                    } else {
                        let b = i - 4 * q;
                        lemma_pixel_decompose(nw as int, nx as int, ny as int, b);
                        assert(out@[i] == data@[base@ + b]);
                        assert(g[i] == spec_byte(
                            data@,
                            width as int,
                            nx as int,
                            nh as int - 1 - ny as int,
                            b,
                        ));
                    }
                }
                assert(out@.len() == 4 * ((ny as int) * (nw as int) + nx as int + 1));
                assert(out@.len() <= g.len()) by (nonlinear_arith)
                    requires
                        out@.len() == 4 * ((ny as int) * (nw as int) + nx as int + 1),
                        g.len() == 4 * (nw as int) * (nh as int),
                        0 <= nx as int,
                        (nx as int) < (nw as int),
                        0 <= ny as int,
                        (ny as int) < (nh as int),
                ;
            }
            nx += 1;
        }
        proof {
            assert(4 * ((ny as int) * (nw as int) + nw as int) == 4 * ((ny as int + 1) * (
            nw as int))) by (nonlinear_arith);
        }
        ny += 1;
    }
    proof {
        assert(4 * ((nh as int) * (nw as int)) == 4 * (nw as int) * (nh as int))
            by (nonlinear_arith);
    }
    proof {
        assert(out@ =~= g);
    }
    (out, nw, nh)
}


/// The width of an image after a transform: swapped with the height for the
/// 90- and 270-degree variants, unchanged otherwise.
pub open spec fn spec_transformed_width(w: int, h: int, t: Transform) -> int {
    if t.spec_swaps_dimensions() {
        h
    } else {
        w
    }
}

/// The height of an image after a transform.
pub open spec fn spec_transformed_height(w: int, h: int, t: Transform) -> int {
    if t.spec_swaps_dimensions() {
        w
    } else {
        h
    }
}

/// The bytes of a packed RGBA image after a transform. Flipped variants
/// flip horizontally first and then rotate; the flipped 180-degree variant
/// equals a vertical flip.
pub open spec fn spec_transformed(s: Seq<u8>, w: int, h: int, t: Transform) -> Seq<u8> {
    match t {
        Transform::Normal => s,
        Transform::R90 => spec_rotate_90(s, w, h),
        Transform::R180 => spec_rotate_180(s, w, h),
        Transform::R270 => spec_rotate_270(s, w, h),
        Transform::Flipped => spec_flip_horizontal(s, w, h),
        Transform::FlippedR90 => spec_rotate_90(spec_flip_horizontal(s, w, h), w, h),
        Transform::FlippedR180 => spec_flip_vertical(s, w, h),
        Transform::FlippedR270 => spec_rotate_270(spec_flip_horizontal(s, w, h), w, h),
    }
}

/// Applies a transform to captured image data: rotations, flips, and their
/// compositions, on packed RGBA bytes.
pub fn apply_image_transform(data: &[u8], width: u32, height: u32, transform: Transform) -> (r: (
    Vec<u8>,
    u32,
    u32,
))
    requires
        data@.len() == 4 * width * height,
    ensures
        r.0@ == spec_transformed(data@, width as int, height as int, transform),
        r.1 == spec_transformed_width(width as int, height as int, transform),
        r.2 == spec_transformed_height(width as int, height as int, transform),
{
    match transform {
        Transform::Normal => (vstd::slice::slice_to_vec(data), width, height),
        Transform::R90 => rotate_90(data, width, height),
        Transform::R180 => rotate_180(data, width, height),
        Transform::R270 => rotate_270(data, width, height),
        Transform::Flipped => flip_horizontal(data, width, height),
        Transform::FlippedR90 => {
            let flipped = flip_horizontal(data, width, height);
            rotate_90(flipped.0.as_slice(), flipped.1, flipped.2)
        },
        Transform::FlippedR180 => flip_vertical(data, width, height),
        Transform::FlippedR270 => {
            let flipped = flip_horizontal(data, width, height);
            rotate_270(flipped.0.as_slice(), flipped.1, flipped.2)
        },
    }
}

/// Swaps a pair of dimensions in place when the transform is a 90- or
/// 270-degree variant; used to deduce logical dimensions from physical ones.
pub fn apply_output_transform(transform: Transform, width: &mut i32, height: &mut i32)
    ensures
        *final(width) == spec_transformed_width(*old(width) as int, *old(height) as int, transform),
        *final(height) == spec_transformed_height(
            *old(width) as int,
            *old(height) as int,
            transform,
        ),
{
    if transform.swaps_dimensions() {
        let tmp = *width;
        *width = *height;
        *height = tmp;
    }
}


/// Rotating 90 degrees and then 270 degrees returns the original image.
proof fn lemma_rot90_then_rot270(s: Seq<u8>, w: int, h: int)
    requires
        0 <= w,
        0 <= h,
        s.len() == 4 * w * h,
    ensures
        spec_rotate_270(spec_rotate_90(s, w, h), h, w) == s,
{
    let u = spec_rotate_90(s, w, h);
    let v = spec_rotate_270(u, h, w);
    assert(4 * h * w == 4 * w * h) by (nonlinear_arith);
    if w == 0 || h == 0 {
        assert(4 * w * h == 0) by (nonlinear_arith)
            requires
                w == 0 || h == 0,
        ;
        assert(v =~= s);
    } else {
        assert forall|i: int| 0 <= i < v.len() implies v[i] == s[i] by {
            lemma_index_decompose(i, w, h);
            let b = i % 4;
            let nx = (i / 4) % w;
            let ny = (i / 4) / w;
            // v reads u at column h - 1 - ny, row nx
            lemma_pixel_in_bounds(h, w, h - 1 - ny, nx);
            let j = 4 * (nx * h + (h - 1 - ny)) + b;
            lemma_pixel_decompose(h, h - 1 - ny, nx, b);
            assert(v[i] == u[j]);
            // u reads s at column nx, row ny
            lemma_pixel_in_bounds(w, h, nx, ny);
            assert(u[j] == spec_byte(s, w, nx, h - 1 - (h - 1 - ny), b));
            assert(v[i] == s[i]);
        }
        assert(v =~= s);
    }
}

/// Rotating 270 degrees and then 90 degrees returns the original image.
proof fn lemma_rot270_then_rot90(s: Seq<u8>, w: int, h: int)
    requires
        0 <= w,
        0 <= h,
        s.len() == 4 * w * h,
    ensures
        spec_rotate_90(spec_rotate_270(s, w, h), h, w) == s,
{
    let v = spec_rotate_90(spec_rotate_270(s, w, h), h, w);
    assert(4 * h * w == 4 * w * h) by (nonlinear_arith);
    if w == 0 || h == 0 {
        assert(4 * w * h == 0) by (nonlinear_arith)
            requires
                w == 0 || h == 0,
        ;
        assert(v =~= s);
    } else {
        assert forall|i: int| 0 <= i < v.len() implies v[i] == s[i] by {
            lemma_index_decompose(i, w, h);
            let b = i % 4;
            let nx = (i / 4) % w;
            let ny = (i / 4) / w;
            lemma_pixel_in_bounds(h, w, ny, w - 1 - nx);
            lemma_pixel_decompose(h, ny, w - 1 - nx, b);
            let u = spec_rotate_270(s, w, h);
            assert(v[i] == u[4 * ((w - 1 - nx) * h + ny) + b]);
            assert(u[4 * ((w - 1 - nx) * h + ny) + b] == spec_byte(s, w, w - 1 - (w - 1 - nx), ny, b));
            assert(v[i] == s[i]);
        }
        assert(v =~= s);
    }
}


/// Rotating 180 degrees twice returns the original image.
proof fn lemma_rot180_involution(s: Seq<u8>, w: int, h: int)
    requires
        0 <= w,
        0 <= h,
        s.len() == 4 * w * h,
    ensures
        spec_rotate_180(spec_rotate_180(s, w, h), w, h) == s,
{
    let v = spec_rotate_180(spec_rotate_180(s, w, h), w, h);
    assert(4 * h * w == 4 * w * h) by (nonlinear_arith);
    if w == 0 || h == 0 {
        assert(4 * w * h == 0) by (nonlinear_arith)
            requires
                w == 0 || h == 0,
        ;
        assert(v =~= s);
    } else {
        assert forall|i: int| 0 <= i < v.len() implies v[i] == s[i] by {
            lemma_index_decompose(i, w, h);
            let b = i % 4;
            let nx = (i / 4) % w;
            let ny = (i / 4) / w;
            lemma_pixel_in_bounds(w, h, w - 1 - nx, h - 1 - ny);
            lemma_pixel_decompose(w, w - 1 - nx, h - 1 - ny, b);
            let u = spec_rotate_180(s, w, h);
            assert(v[i] == u[4 * ((h - 1 - ny) * w + (w - 1 - nx)) + b]);
            assert(u[4 * ((h - 1 - ny) * w + (w - 1 - nx)) + b] == spec_byte(
                s,
                w,
                w - 1 - (w - 1 - nx),
                h - 1 - (h - 1 - ny),
                b,
            ));
            assert(v[i] == s[i]);
        }
        assert(v =~= s);
    }
}


/// Mirroring left to right twice returns the original image.
proof fn lemma_fliph_involution(s: Seq<u8>, w: int, h: int)
    requires
        0 <= w,
        0 <= h,
        s.len() == 4 * w * h,
    ensures
        spec_flip_horizontal(spec_flip_horizontal(s, w, h), w, h) == s,
{
    let v = spec_flip_horizontal(spec_flip_horizontal(s, w, h), w, h);
    assert(4 * h * w == 4 * w * h) by (nonlinear_arith);
    if w == 0 || h == 0 {
        assert(4 * w * h == 0) by (nonlinear_arith)
            requires
                w == 0 || h == 0,
        ;
        assert(v =~= s);
    } else {
        assert forall|i: int| 0 <= i < v.len() implies v[i] == s[i] by {
            lemma_index_decompose(i, w, h);
            let b = i % 4;
            let nx = (i / 4) % w;
            let ny = (i / 4) / w;
            lemma_pixel_in_bounds(w, h, w - 1 - nx, ny);
            lemma_pixel_decompose(w, w - 1 - nx, ny, b);
            let u = spec_flip_horizontal(s, w, h);
            assert(v[i] == u[4 * (ny * w + (w - 1 - nx)) + b]);
            assert(u[4 * (ny * w + (w - 1 - nx)) + b] == spec_byte(
                s,
                w,
                w - 1 - (w - 1 - nx),
                ny,
                b,
            ));
            assert(v[i] == s[i]);
        }
        assert(v =~= s);
    }
}


/// Mirroring top to bottom twice returns the original image.
proof fn lemma_flipv_involution(s: Seq<u8>, w: int, h: int)
    requires
        0 <= w,
        0 <= h,
        s.len() == 4 * w * h,
    ensures
        spec_flip_vertical(spec_flip_vertical(s, w, h), w, h) == s,
{
    let v = spec_flip_vertical(spec_flip_vertical(s, w, h), w, h);
    assert(4 * h * w == 4 * w * h) by (nonlinear_arith);
    if w == 0 || h == 0 {
        assert(4 * w * h == 0) by (nonlinear_arith)
            requires
                w == 0 || h == 0,
        ;
        assert(v =~= s);
    } else {
        assert forall|i: int| 0 <= i < v.len() implies v[i] == s[i] by {
            lemma_index_decompose(i, w, h);
            let b = i % 4;
            let nx = (i / 4) % w;
            let ny = (i / 4) / w;
            lemma_pixel_in_bounds(w, h, nx, h - 1 - ny);
            lemma_pixel_decompose(w, nx, h - 1 - ny, b);
            let u = spec_flip_vertical(s, w, h);
            assert(v[i] == u[4 * ((h - 1 - ny) * w + nx) + b]);
            assert(u[4 * ((h - 1 - ny) * w + nx) + b] == spec_byte(
                s,
                w,
                nx,
                h - 1 - (h - 1 - ny),
                b,
            ));
            assert(v[i] == s[i]);
        }
        assert(v =~= s);
    }
}


/// A horizontal flip followed by a 90-degree rotation is its own inverse.
proof fn lemma_flipped90_involution(s: Seq<u8>, w: int, h: int)
    requires
        0 <= w,
        0 <= h,
        s.len() == 4 * w * h,
    ensures
        spec_rotate_90(
            spec_flip_horizontal(spec_rotate_90(spec_flip_horizontal(s, w, h), w, h), h, w),
            h,
            w,
        ) == s,
{
    let v = spec_rotate_90(
            spec_flip_horizontal(spec_rotate_90(spec_flip_horizontal(s, w, h), w, h), h, w),
            h,
            w,
        );
    assert(4 * h * w == 4 * w * h) by (nonlinear_arith);
    if w == 0 || h == 0 {
        assert(4 * w * h == 0) by (nonlinear_arith)
            requires
                w == 0 || h == 0,
        ;
        assert(v =~= s);
    } else {
        assert forall|i: int| 0 <= i < v.len() implies v[i] == s[i] by {
            lemma_index_decompose(i, w, h);
            let b = i % 4;
            let nx = (i / 4) % w;
            let ny = (i / 4) / w;
            let f1 = spec_flip_horizontal(s, w, h);
            let u = spec_rotate_90(f1, w, h);
            let f2 = spec_flip_horizontal(u, h, w);
            lemma_pixel_in_bounds(h, w, ny, w - 1 - nx);
            lemma_pixel_decompose(h, ny, w - 1 - nx, b);
            assert(v[i] == f2[4 * ((w - 1 - nx) * h + ny) + b]);
            lemma_pixel_in_bounds(h, w, h - 1 - ny, w - 1 - nx);
            lemma_pixel_decompose(h, h - 1 - ny, w - 1 - nx, b);
            assert(f2[4 * ((w - 1 - nx) * h + ny) + b] == u[4 * ((w - 1 - nx) * h + (h - 1
                - ny)) + b]);
            lemma_pixel_in_bounds(w, h, w - 1 - nx, ny);
            lemma_pixel_decompose(w, w - 1 - nx, ny, b);
            assert(u[4 * ((w - 1 - nx) * h + (h - 1 - ny)) + b] == f1[4 * (ny * w + (w - 1
                - nx)) + b]);
            assert(f1[4 * (ny * w + (w - 1 - nx)) + b] == spec_byte(
                s,
                w,
                w - 1 - (w - 1 - nx),
                ny,
                b,
            ));
            assert(v[i] == s[i]);
        }
        assert(v =~= s);
    }
}


/// A horizontal flip followed by a 270-degree rotation is its own inverse.
proof fn lemma_flipped270_involution(s: Seq<u8>, w: int, h: int)
    requires
        0 <= w,
        0 <= h,
        s.len() == 4 * w * h,
    ensures
        spec_rotate_270(
            spec_flip_horizontal(spec_rotate_270(spec_flip_horizontal(s, w, h), w, h), h, w),
            h,
            w,
        ) == s,
{
    let v = spec_rotate_270(
            spec_flip_horizontal(spec_rotate_270(spec_flip_horizontal(s, w, h), w, h), h, w),
            h,
            w,
        );
    assert(4 * h * w == 4 * w * h) by (nonlinear_arith);
    if w == 0 || h == 0 {
        assert(4 * w * h == 0) by (nonlinear_arith)
            requires
                w == 0 || h == 0,
        ;
        assert(v =~= s);
    } else {
        assert forall|i: int| 0 <= i < v.len() implies v[i] == s[i] by {
            lemma_index_decompose(i, w, h);
            let b = i % 4;
            let nx = (i / 4) % w;
            let ny = (i / 4) / w;
            let f1 = spec_flip_horizontal(s, w, h);
            let u = spec_rotate_270(f1, w, h);
            let f2 = spec_flip_horizontal(u, h, w);
            lemma_pixel_in_bounds(h, w, h - 1 - ny, nx);
            lemma_pixel_decompose(h, h - 1 - ny, nx, b);
            assert(v[i] == f2[4 * (nx * h + (h - 1 - ny)) + b]);
            lemma_pixel_in_bounds(h, w, ny, nx);
            lemma_pixel_decompose(h, ny, nx, b);
            assert(f2[4 * (nx * h + (h - 1 - ny)) + b] == u[4 * (nx * h + ny) + b]);
            lemma_pixel_in_bounds(w, h, w - 1 - nx, ny);
            lemma_pixel_decompose(w, w - 1 - nx, ny, b);
            assert(u[4 * (nx * h + ny) + b] == f1[4 * (ny * w + (w - 1 - nx)) + b]);
            assert(f1[4 * (ny * w + (w - 1 - nx)) + b] == spec_byte(
                s,
                w,
                w - 1 - (w - 1 - nx),
                ny,
                b,
            ));
            assert(v[i] == s[i]);
        }
        assert(v =~= s);
    }
}

/// Applying a transform and then its inverse returns the original image
/// byte for byte, for every transform.
pub proof fn lemma_transform_round_trip(s: Seq<u8>, w: int, h: int, t: Transform)
    requires
        0 <= w,
        0 <= h,
        s.len() == 4 * w * h,
    ensures
        spec_transformed(
            spec_transformed(s, w, h, t),
            spec_transformed_width(w, h, t),
            spec_transformed_height(w, h, t),
            t.spec_inverse(),
        ) == s,
{
    match t {
        Transform::Normal => {},
        Transform::R90 => {
            lemma_rot90_then_rot270(s, w, h);
        },
        Transform::R180 => {
            lemma_rot180_involution(s, w, h);
        },
        Transform::R270 => {
            lemma_rot270_then_rot90(s, w, h);
        },
        Transform::Flipped => {
            lemma_fliph_involution(s, w, h);
        },
        Transform::FlippedR90 => {
            lemma_flipped90_involution(s, w, h);
        },
        Transform::FlippedR180 => {
            lemma_flipv_involution(s, w, h);
        },
        Transform::FlippedR270 => {
            lemma_flipped270_involution(s, w, h);
        },
    }
}

/// A transform preserves the byte count: the output length is four times
/// the product of the transformed dimensions.
pub proof fn lemma_transformed_len(s: Seq<u8>, w: int, h: int, t: Transform)
    requires
        0 <= w,
        0 <= h,
        s.len() == 4 * w * h,
    ensures
        spec_transformed(s, w, h, t).len() == 4 * spec_transformed_width(w, h, t)
            * spec_transformed_height(w, h, t),
        spec_transformed_width(w, h, t) * spec_transformed_height(w, h, t) == w * h,
{
    assert(4 * h * w == 4 * w * h && h * w == w * h) by (nonlinear_arith);
}

/// The 90- and 270-degree variants swap the output dimensions; the 0- and
/// 180-degree variants preserve them.
pub proof fn lemma_rotation_dimension_law(w: int, h: int, t: Transform)
    ensures
        t.spec_swaps_dimensions() <==> (t == Transform::R90 || t == Transform::R270 || t
            == Transform::FlippedR90 || t == Transform::FlippedR270),
        t.spec_swaps_dimensions() ==> spec_transformed_width(w, h, t) == h
            && spec_transformed_height(w, h, t) == w,
        !t.spec_swaps_dimensions() ==> spec_transformed_width(w, h, t) == w
            && spec_transformed_height(w, h, t) == h,
{
}

/// The flipped 180-degree transform equals a vertical flip byte for byte.
pub proof fn lemma_flipped_180_is_vertical_flip(s: Seq<u8>, w: int, h: int)
    ensures
        spec_transformed(s, w, h, Transform::FlippedR180) == spec_flip_vertical(s, w, h),
{
}
} // verus!
