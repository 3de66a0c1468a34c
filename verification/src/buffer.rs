use vstd::prelude::*;
use crate::capture::CaptureResult;
use crate::error::Error;
use crate::transform::spec_byte;
use crate::transform::lemma_pixel_in_bounds;
use crate::transform::lemma_pixel_decompose;
use crate::transform::push_pixel;
use crate::MAX_PIXELS;

verus! {

/// The byte count a buffer of the given dimensions needs: `stride * height`
/// when a row stride is supplied, `width * height * bytes_per_pixel` otherwise.
pub open spec fn spec_buffer_bytes(
    width: u32,
    height: u32,
    bytes_per_pixel: u32,
    row_stride_bytes: Option<u32>,
) -> int {
    match row_stride_bytes {
        Some(stride) => stride * height,
        None => width * height * bytes_per_pixel,
    }
}

/// Computes a safe byte size for an image-like allocation. It fails with an
/// invalid-region error when `width * height` exceeds `MAX_PIXELS`, and with
/// a buffer-creation error when the byte count does not fit the platform
/// index type; otherwise it returns the exact byte count.
pub fn checked_buffer_size(
    width: u32,
    height: u32,
    bytes_per_pixel: u32,
    row_stride_bytes: Option<u32>,
) -> (r: Result<usize, Error>)
    ensures
        match r {
            Ok(size) => {
                &&& width * height <= MAX_PIXELS
                &&& size == spec_buffer_bytes(width, height, bytes_per_pixel, row_stride_bytes)
            },
            Err(e) => {
                &&& width * height > MAX_PIXELS || spec_buffer_bytes(
                    width,
                    height,
                    bytes_per_pixel,
                    row_stride_bytes,
                ) > usize::MAX
                &&& (e is InvalidRegion) <==> width * height > MAX_PIXELS
                &&& !(width * height > MAX_PIXELS) ==> e is BufferCreation
            },
        },
{
    proof {
        assert((width as u64) * (height as u64) <= 0xFFFF_FFFF_FFFF_FFFF) by (nonlinear_arith)
            requires
                width as u64 <= 0xFFFF_FFFFu64,
                height as u64 <= 0xFFFF_FFFFu64,
        ;
    }
    let pixels: u64 = (width as u64) * (height as u64);

    if pixels > MAX_PIXELS {
        return Err(Error::InvalidRegion("Image exceeds maximum pixel limit".to_owned()));
    }

    let bytes: u64 = match row_stride_bytes {
        Some(stride) => {
            proof {
                assert((stride as u64) * (height as u64) <= 0xFFFF_FFFF_FFFF_FFFF)
                    by (nonlinear_arith)
                    requires
                        stride as u64 <= 0xFFFF_FFFFu64,
                        height as u64 <= 0xFFFF_FFFFu64,
                ;
            }
            (stride as u64) * (height as u64)
        },
        None => {
            proof {
                assert(pixels * (bytes_per_pixel as u64) <= 0xFFFF_FFFF_FFFF_FFFF)
                    by (nonlinear_arith)
                    requires
                        pixels <= MAX_PIXELS,
                        bytes_per_pixel as u64 <= 0xFFFF_FFFFu64,
                ;
            }
            pixels * (bytes_per_pixel as u64)
        },
    };

    if bytes <= usize::MAX as u64 {
        Ok(bytes as usize)
    } else {
        Err(Error::BufferCreation("Buffer size overflow".to_owned()))
    }
}


/// The destination bytes after a capture is painted at `(offset_x,
/// offset_y)`: inside the painted window the bytes come from the capture,
/// rows and columns that would exceed the destination are clipped, and
/// everything else keeps the old destination bytes.
pub open spec fn spec_blitted(
    dest: Seq<u8>,
    dw: int,
    dh: int,
    src: Seq<u8>,
    sw: int,
    sh: int,
    ox: int,
    oy: int,
) -> Seq<u8> {
    if sw <= 0 || sh <= 0 || ox >= dw || oy >= dh {
        dest
    } else {
        let cw = vstd::math::min(sw, dw - ox);
        let ch = vstd::math::min(sh, dh - oy);
        Seq::new(
            dest.len(),
            |i: int|
                {
                    let p = i / 4;
                    let b = i % 4;
                    let px = p % dw;
                    let py = p / dw;
                    if ox <= px < ox + cw && oy <= py < oy + ch {
                        spec_byte(src, sw, px - ox, py - oy, b)
                    } else {
                        dest[i]
                    }
                },
        )
    }
}

/// Paints a capture into a destination canvas at the given offset, clipping
/// rows and columns that would exceed the destination.
pub fn blit_capture(
    dest: &mut Vec<u8>,
    dest_width: usize,
    dest_height: usize,
    capture: &CaptureResult,
    offset_x: usize,
    offset_y: usize,
)
    requires
        old(dest)@.len() == 4 * dest_width * dest_height,
        capture.wf(),
    ensures
        final(dest)@ == spec_blitted(
            old(dest)@,
            dest_width as int,
            dest_height as int,
            capture.data@,
            capture.width as int,
            capture.height as int,
            offset_x as int,
            offset_y as int,
        ),
{
    let ghost g = spec_blitted(
        old(dest)@,
        dest_width as int,
        dest_height as int,
        capture.data@,
        capture.width as int,
        capture.height as int,
        offset_x as int,
        offset_y as int,
    );
    let sw = capture.width;
    let sh = capture.height;
    if sw == 0 || sh == 0 || offset_x >= dest_width || offset_y >= dest_height {
        return ;
    }
    let cw: usize = if (sw as usize) <= dest_width - offset_x {
        sw as usize
    } else {
        dest_width - offset_x
    };
    let ch: usize = if (sh as usize) <= dest_height - offset_y {
        sh as usize
    } else {
        dest_height - offset_y
    };
    let mut out: Vec<u8> = Vec::new();
    let mut py: usize = 0;
    while py < dest_height
        invariant
            dest@ == old(dest)@,
            dest@.len() == 4 * dest_width * dest_height,
            capture.wf(),
            sw == capture.width,
            sh == capture.height,
            sw > 0,
            sh > 0,
            offset_x < dest_width,
            offset_y < dest_height,
            cw == vstd::math::min(sw as int, dest_width - offset_x),
            ch == vstd::math::min(sh as int, dest_height - offset_y),
            g == spec_blitted(
                old(dest)@,
                dest_width as int,
                dest_height as int,
                capture.data@,
                capture.width as int,
                capture.height as int,
                offset_x as int,
                offset_y as int,
            ),
            g.len() == dest@.len(),
            py <= dest_height,
            out@.len() == 4 * ((py as int) * (dest_width as int)),
            out@.len() <= g.len(),
            forall|i: int| 0 <= i < out@.len() ==> out@[i] == g[i],
        decreases dest_height - py,
    {
        let mut px: usize = 0;
        proof {
            assert(4 * (py as int) * (dest_width as int) == 4 * ((py as int) * (
            dest_width as int) + 0)) by (nonlinear_arith);
            assert(out@.len() == 4 * ((py as int) * (dest_width as int)));
        }
        while px < dest_width
            invariant
                dest@ == old(dest)@,
                dest@.len() == 4 * dest_width * dest_height,
                capture.wf(),
                sw == capture.width,
                sh == capture.height,
                sw > 0,
                sh > 0,
                offset_x < dest_width,
                offset_y < dest_height,
                cw == vstd::math::min(sw as int, dest_width - offset_x),
                ch == vstd::math::min(sh as int, dest_height - offset_y),
                g == spec_blitted(
                    old(dest)@,
                    dest_width as int,
                    dest_height as int,
                    capture.data@,
                    capture.width as int,
                    capture.height as int,
                    offset_x as int,
                    offset_y as int,
                ),
                g.len() == dest@.len(),
                py < dest_height,
                px <= dest_width,
                out@.len() == 4 * ((py as int) * (dest_width as int) + px as int),
                out@.len() <= g.len(),
                forall|i: int| 0 <= i < out@.len() ==> out@[i] == g[i],
            decreases dest_width - px,
        {
            let ghost old_out = out@;
            let in_window = px >= offset_x && px - offset_x < cw && py >= offset_y && py
                - offset_y < ch;
            let ghost q = (py as int) * (dest_width as int) + px as int;
            let ghost base: int;
            if in_window {
                proof {
                    lemma_pixel_in_bounds(sw as int, sh as int, px - offset_x, py - offset_y);
                }
                let b = push_pixel(
                    &mut out,
                    capture.data.as_slice(),
                    sw as usize,
                    px - offset_x,
                    py - offset_y,
                );
                proof {
                    base = b@;
                }
            } else {
                proof {
                    lemma_pixel_in_bounds(dest_width as int, dest_height as int, px as int,
                        py as int);
                }
                let b = push_pixel(&mut out, dest.as_slice(), dest_width, px, py);
                proof {
                    base = b@;
                }
            }
            proof {
                lemma_pixel_in_bounds(dest_width as int, dest_height as int, px as int,
                    py as int);
                assert forall|i: int| 0 <= i < out@.len() implies out@[i] == g[i] by {
                    if i < old_out.len() {
                        assert(out@[i] == old_out[i]);
                    } else {
                        let b = i - 4 * q;
                        lemma_pixel_decompose(dest_width as int, px as int, py as int, b);
                        if in_window {
                            assert(out@[i] == capture.data@[base + b]);
                            assert(g[i] == spec_byte(
                                capture.data@,
                                sw as int,
                                px - offset_x,
                                py - offset_y,
                                b,
                            ));
                        } else {
                            assert(out@[i] == dest@[base + b]);
                            assert(g[i] == dest@[i]);
                        }
                    }
                }
                assert(out@.len() == 4 * ((py as int) * (dest_width as int) + px as int + 1));
            }
            px += 1;
        }
        proof {
            assert(4 * ((py as int) * (dest_width as int) + dest_width as int) == 4 * ((
            py as int + 1) * (dest_width as int))) by (nonlinear_arith);
        }
        py += 1;
    }
    proof {
        assert(4 * ((dest_height as int) * (dest_width as int)) == 4 * (dest_width as int) * (
        dest_height as int)) by (nonlinear_arith);
        assert(out@ =~= g);
    }
    *dest = out;
}
} // verus!
