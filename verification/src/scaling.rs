use vstd::prelude::*;
use crate::capture::CaptureResult;
use crate::error::Error;
use crate::buffer::checked_buffer_size;
use crate::transform::spec_byte;
use crate::transform::lemma_pixel_in_bounds;
use crate::transform::lemma_pixel_decompose;
use crate::transform::push_pixel;
use crate::MAX_PIXELS;
use vstd::arithmetic::div_mod::lemma_multiply_divide_lt;

verus! {

/// An exact scale factor, the ratio `num / den` of two positive integers.
/// Effective output scales are of this shape: the physical major dimension
/// over the logical one.
#[derive(Debug, Clone, Copy, PartialEq, Eq, Structural)]
pub struct Scale {
    pub num: u32,
    pub den: u32,
}

impl Scale {
    /// Both components are positive.
    pub open spec fn wf(&self) -> bool {
        self.num >= 1 && self.den >= 1
    }

    /// The factor equals exactly one.
    pub open spec fn spec_is_one(&self) -> bool {
        self.num == self.den
    }

    /// The factor is within 0.01 of an integer between two and four and
    /// greater than one, so the integer fast path applies; the integer is
    /// `num / den` rounded down.
    pub open spec fn spec_fast_ok(&self) -> bool {
        &&& self.num > self.den
        &&& 2 <= self.num / self.den <= 4
        &&& 100 * (self.num % self.den) < self.den
    }

    pub fn new(num: u32, den: u32) -> (r: Self)
        requires
            num >= 1,
            den >= 1,
        ensures
            r.num == num,
            r.den == den,
            r.wf(),
    {
        Self { num, den }
    }

    pub fn from_int(factor: u32) -> (r: Self)
        requires
            factor >= 1,
        ensures
            r.num == factor,
            r.den == 1,
            r.wf(),
    {
        Self { num: factor, den: 1 }
    }

    /// The reciprocal factor `den / num`.
    pub fn invert(self) -> (r: Self)
        requires
            self.wf(),
        ensures
            r.num == self.den,
            r.den == self.num,
            r.wf(),
    {
        Self { num: self.den, den: self.num }
    }

    pub fn is_one(&self) -> (r: bool)
        ensures
            r == self.spec_is_one(),
    {
        self.num == self.den
    }

    /// The integer factor for the fast upscale path, when it applies.
    pub fn fast_upscale_factor(&self) -> (r: Option<u32>)
        requires
            self.wf(),
        ensures
            match r {
                Some(k) => self.spec_fast_ok() && k == self.num / self.den,
                None => !self.spec_fast_ok(),
            },
    {
        if self.num <= self.den {
            return None;
        }
        let k = self.num / self.den;
        let rem = self.num % self.den;
        if 2 <= k && k <= 4 && 100u64 * (rem as u64) < self.den as u64 {
            Some(k)
        } else {
            None
        }
    }
}

/// A packed RGBA image upscaled by an integer factor `f`: each source pixel
/// is duplicated into an `f` by `f` block, so the destination pixel at
/// `(nx, ny)` equals the source pixel at `(nx / f, ny / f)`.
pub open spec fn spec_upscaled(s: Seq<u8>, w: int, h: int, f: int) -> Seq<u8> {
    Seq::new(
        (4 * (w * f) * (h * f)) as nat,
        |i: int|
            {
                let p = i / 4;
                let b = i % 4;
                let nx = p % (w * f);
                let ny = p / (w * f);
                spec_byte(s, w, nx / f, ny / f, b)
            },
    )
}

/// The filter the general resampler uses for a scale factor: nearest above
/// one, triangle from 0.75 up, Catmull-Rom from 0.5 up, Lanczos-3 below.
#[derive(Debug, Clone, Copy, PartialEq, Eq, Structural)]
pub enum ResampleFilter {
    Nearest,
    Triangle,
    CatmullRom,
    Lanczos3,
}

/// The filter selected for a scale factor; the thresholds are contractual.
pub open spec fn spec_filter_for(sc: Scale) -> ResampleFilter {
    if sc.num > sc.den {
        ResampleFilter::Nearest
    } else if 4 * sc.num >= 3 * sc.den {
        ResampleFilter::Triangle
    } else if 2 * sc.num >= sc.den {
        ResampleFilter::CatmullRom
    } else {
        ResampleFilter::Lanczos3
    }
}

/// The filter the general resampler uses for this scale factor.
pub fn filter_for(sc: Scale) -> (r: ResampleFilter)
    ensures
        r == spec_filter_for(sc),
{
    if sc.num > sc.den {
        ResampleFilter::Nearest
    } else if 4u64 * (sc.num as u64) >= 3u64 * (sc.den as u64) {
        ResampleFilter::Triangle
    } else if 2u64 * (sc.num as u64) >= sc.den as u64 {
        ResampleFilter::CatmullRom
    } else {
        ResampleFilter::Lanczos3
    }
}

/// The bytes the general resampler produces for the given packed RGBA
/// input, output dimensions and filter; they depend on these alone.
pub uninterp spec fn spec_resampled(
    s: Seq<u8>,
    w: int,
    h: int,
    nw: int,
    nh: int,
    filter: ResampleFilter,
) -> Seq<u8>;

/// Relies on `image::imageops::resize` for filtered resampling of packed
/// RGBA bytes, and on `ImageBuffer::from_raw` / `into_raw`, which only wrap
/// and unwrap the byte container. The output holds exactly
/// `4 * new_width * new_height` bytes and depends only on the input bytes,
/// the dimensions and the filter. Both output dimensions must be positive:
/// a zero dimension paired with a large one makes the resampler's
/// intermediate buffer overflow its capacity and panic.
#[verifier::external_body]
fn resample_rgba(
    data: Vec<u8>,
    width: u32,
    height: u32,
    new_width: u32,
    new_height: u32,
    filter: ResampleFilter,
) -> (r: Vec<u8>)
    requires
        data@.len() == 4 * width * height,
        new_width >= 1,
        new_height >= 1,
        new_width * new_height <= MAX_PIXELS,
    ensures
        r@.len() == 4 * new_width * new_height,
        r@ == spec_resampled(
            data@,
            width as int,
            height as int,
            new_width as int,
            new_height as int,
            filter,
        ),
{
    let img = image::ImageBuffer::<image::Rgba<u8>, Vec<u8>>::from_raw(width, height, data)
        .expect("buffer length matches the dimensions");
    let ft = match filter {
        ResampleFilter::Nearest => image::imageops::FilterType::Nearest,
        ResampleFilter::Triangle => image::imageops::FilterType::Triangle,
        ResampleFilter::CatmullRom => image::imageops::FilterType::CatmullRom,
        ResampleFilter::Lanczos3 => image::imageops::FilterType::Lanczos3,
    };
    image::imageops::resize(&img, new_width, new_height, ft).into_raw()
}


/// Fast upscaling for integer factors: duplicates each source pixel into a
/// `factor` by `factor` block without floating-point work. Fails with a
/// scaling error when a scaled dimension exceeds the supported range and
/// with an invalid-region error when the scaled pixel count exceeds
/// `MAX_PIXELS`.
pub fn scale_image_integer_fast(capture: CaptureResult, factor: u32) -> (r: Result<
    CaptureResult,
    Error,
>)
    requires
        capture.wf(),
        1 <= factor <= 4,
    ensures
        match r {
            Ok(out) => {
                &&& out.wf()
                &&& out.width == capture.width * factor
                &&& out.height == capture.height * factor
                &&& out.data@ == spec_upscaled(
                    capture.data@,
                    capture.width as int,
                    capture.height as int,
                    factor as int,
                )
            },
            Err(e) => {
                &&& capture.width * factor > u32::MAX || capture.height * factor > u32::MAX || (
                capture.width * factor) * (capture.height * factor) > MAX_PIXELS
                &&& (e is ScalingFailed) <==> (capture.width * factor > u32::MAX
                    || capture.height * factor > u32::MAX)
                &&& !(capture.width * factor > u32::MAX || capture.height * factor > u32::MAX)
                    ==> e is InvalidRegion
            },
        },
{
    let width = capture.width;
    let height = capture.height;
    proof {
        assert((width as u64) * (factor as u64) <= 0xFFFF_FFFFu64 * 4 && (height as u64) * (
        factor as u64) <= 0xFFFF_FFFFu64 * 4) by (nonlinear_arith)
            requires
                width as u64 <= 0xFFFF_FFFFu64,
                height as u64 <= 0xFFFF_FFFFu64,
                factor <= 4,
        ;
    }
    let nw64: u64 = (width as u64) * (factor as u64);
    let nh64: u64 = (height as u64) * (factor as u64);
    if nw64 > u32::MAX as u64 {
        return Err(Error::ScalingFailed("Scaled width exceeds supported range".to_owned()));
    }
    if nh64 > u32::MAX as u64 {
        return Err(Error::ScalingFailed("Scaled height exceeds supported range".to_owned()));
    }
    let nw: u32 = nw64 as u32;
    let nh: u32 = nh64 as u32;
    let new_bytes = match checked_buffer_size(nw, nh, 4, None) {
        Ok(b) => b,
        Err(e) => {
            proof {
                assert((nw as int) * (nh as int) * 4 <= MAX_PIXELS * 4 || (nw as int) * (
                nh as int) > MAX_PIXELS) by (nonlinear_arith);
                assert(usize::MAX >= 0xFFFF_FFFFu64);
            }
            return Err(e);
        },
    };
    let ghost g = spec_upscaled(
        capture.data@,
        width as int,
        height as int,
        factor as int,
    );
    proof {
        assert(g.len() == 4 * (nw as int) * (nh as int)) by (nonlinear_arith)
            requires
                g.len() == 4 * ((width as int) * (factor as int)) * ((height as int) * (
                factor as int)),
                nw == (width as int) * (factor as int),
                nh == (height as int) * (factor as int),
        ;
    }
    let data = &capture.data;
    let mut out: Vec<u8> = Vec::new();
    let mut ny: u32 = 0;
    while ny < nh
        invariant
            capture.wf(),
            data == capture.data,
            nw == width * factor,
            nh == height * factor,
            width == capture.width,
            height == capture.height,
            1 <= factor <= 4,
            g == spec_upscaled(capture.data@, width as int, height as int, factor as int),
            g.len() == 4 * (nw as int) * (nh as int),
            ny <= nh,
            out@.len() == 4 * ((ny as int) * (nw as int)),
            out@.len() <= g.len(),
            forall|i: int| 0 <= i < out@.len() ==> out@[i] == g[i],
        decreases nh - ny,
    {
        let mut nx: u32 = 0;
        proof {
            assert(4 * (ny as int) * (nw as int) == 4 * ((ny as int) * (nw as int) + 0))
                by (nonlinear_arith);
        }
        while nx < nw
            invariant
                capture.wf(),
                data == capture.data,
                nw == width * factor,
                nh == height * factor,
                width == capture.width,
                height == capture.height,
                1 <= factor <= 4,
                g == spec_upscaled(capture.data@, width as int, height as int, factor as int),
                g.len() == 4 * (nw as int) * (nh as int),
                ny < nh,
                nx <= nw,
                out@.len() == 4 * ((ny as int) * (nw as int) + nx as int),
                out@.len() <= g.len(),
                forall|i: int| 0 <= i < out@.len() ==> out@[i] == g[i],
            decreases nw - nx,
        {
            let sx = nx / factor;
            let sy = ny / factor;
            proof {
                assert((nx as int) < (factor as int) * (width as int)) by (nonlinear_arith)
                    requires
                        (nx as int) < (nw as int),
                        nw == width * factor,
                ;
                assert((ny as int) < (factor as int) * (height as int)) by (nonlinear_arith)
                    requires
                        (ny as int) < (nh as int),
                        nh == height * factor,
                ;
                lemma_multiply_divide_lt(nx as int, factor as int, width as int);
                lemma_multiply_divide_lt(ny as int, factor as int, height as int);
                lemma_pixel_in_bounds(width as int, height as int, sx as int, sy as int);
                lemma_pixel_in_bounds(nw as int, nh as int, nx as int, ny as int);
            }
            let ghost old_out = out@;
            let base = push_pixel(&mut out, data.as_slice(), width as usize, sx as usize, sy as usize);
            proof {
                let q = (ny as int) * (nw as int) + nx as int;
                assert forall|i: int| 0 <= i < out@.len() implies out@[i] == g[i] by {
                    if i < old_out.len() {
                        assert(out@[i] == old_out[i]);
                    } else {
                        let b = i - 4 * q;
                        lemma_pixel_decompose(nw as int, nx as int, ny as int, b);
                        assert(out@[i] == data@[base@ + b]);
                        assert(g[i] == spec_byte(
                            capture.data@,
                            width as int,
                            (nx as int) / (factor as int),
                            (ny as int) / (factor as int),
                            b,
                        ));
                    }
                }
                assert(out@.len() == 4 * ((ny as int) * (nw as int) + nx as int + 1));
                assert(out@.len() <= g.len()) by (nonlinear_arith)
                    requires
                        out@.len() == 4 * ((ny as int) * (nw as int) + nx as int + 1),
                        g.len() == 4 * (nw as int) * (nh as int),
                        0 <= nx as int,
                        (nx as int) < (nw as int),
                        0 <= ny as int,
                        (ny as int) < (nh as int),
                ;
            }
            nx += 1;
        }
        proof {
            assert(4 * ((ny as int) * (nw as int) + nw as int) == 4 * ((ny as int + 1) * (
            nw as int))) by (nonlinear_arith);
        }
        ny += 1;
    }
    proof {
        assert(4 * ((nh as int) * (nw as int)) == 4 * (nw as int) * (nh as int))
            by (nonlinear_arith);
        assert(out@ =~= g);
    }
    Ok(CaptureResult::new(out, nw, nh))
}

/// A dimension scaled by a factor and truncated: `d * num / den`, saturated
/// at the largest supported dimension.
pub open spec fn spec_scaled_dim(d: int, sc: Scale) -> int {
    let v = d * (sc.num as int) / (sc.den as int);
    if v > u32::MAX {
        u32::MAX as int
    } else {
        v
    }
}

fn scaled_dim(d: u32, sc: Scale) -> (r: u32)
    requires
        sc.wf(),
    ensures
        r == spec_scaled_dim(d as int, sc),
{
    proof {
        assert((d as u64) * (sc.num as u64) <= 0xFFFF_FFFF_FFFF_FFFF) by (nonlinear_arith)
            requires
                d as u64 <= 0xFFFF_FFFFu64,
                sc.num as u64 <= 0xFFFF_FFFFu64,
        ;
    }
    let v64: u64 = (d as u64) * (sc.num as u64) / (sc.den as u64);
    if v64 > u32::MAX as u64 {
        u32::MAX
    } else {
        v64 as u32
    }
}

/// Scales a capture by an exact factor. A factor of one returns the capture
/// unchanged; a factor within 0.01 of an integer between two and four takes
/// the integer fast path; any other factor goes through the general
/// filtered resampler, whose target dimensions are the truncated scaled
/// dimensions and whose filter is chosen by the factor. Zero target
/// dimensions and pixel counts beyond `MAX_PIXELS` fail with an
/// invalid-region error.
pub fn scale_image_data(capture: CaptureResult, scale: Scale) -> (r: Result<CaptureResult, Error>)
    requires
        capture.wf(),
        scale.wf(),
    ensures
        match r {
            Ok(out) => {
                &&& out.wf()
                &&& scale.spec_is_one() ==> out == capture
                &&& (!scale.spec_is_one() && scale.spec_fast_ok()) ==> {
                    let k = scale.num as int / scale.den as int;
                    &&& out.width == capture.width * k
                    &&& out.height == capture.height * k
                    &&& out.data@ == spec_upscaled(
                        capture.data@,
                        capture.width as int,
                        capture.height as int,
                        k,
                    )
                }
                &&& (!scale.spec_is_one() && !scale.spec_fast_ok()) ==> {
                    &&& out.width == spec_scaled_dim(capture.width as int, scale)
                    &&& out.height == spec_scaled_dim(capture.height as int, scale)
                    &&& out.width > 0 && out.height > 0
                    &&& out.data@ == spec_resampled(
                        capture.data@,
                        capture.width as int,
                        capture.height as int,
                        out.width as int,
                        out.height as int,
                        spec_filter_for(scale),
                    )
                }
            },
            Err(e) => {
                &&& !scale.spec_is_one()
                &&& scale.spec_fast_ok() ==> {
                    let k = scale.num as int / scale.den as int;
                    &&& capture.width * k > u32::MAX || capture.height * k > u32::MAX || (
                    capture.width * k) * (capture.height * k) > MAX_PIXELS
                    &&& (e is ScalingFailed) <==> (capture.width * k > u32::MAX
                        || capture.height * k > u32::MAX)
                    &&& !(capture.width * k > u32::MAX || capture.height * k > u32::MAX)
                        ==> e is InvalidRegion
                }
                &&& !scale.spec_fast_ok() ==> {
                    let nw = spec_scaled_dim(capture.width as int, scale);
                    let nh = spec_scaled_dim(capture.height as int, scale);
                    &&& (nw == 0 || nh == 0 || nw * nh > MAX_PIXELS)
                    &&& e is InvalidRegion
                }
            },
        },
{
    if scale.is_one() {
        return Ok(capture);
    }

    if let Some(factor) = scale.fast_upscale_factor() {
        return scale_image_integer_fast(capture, factor);
    }

    let new_width = scaled_dim(capture.width, scale);
    let new_height = scaled_dim(capture.height, scale);
    if new_width == 0 || new_height == 0 {
        return Err(Error::InvalidRegion("Scaled dimensions must be positive".to_owned()));
    }
    match checked_buffer_size(new_width, new_height, 4, None) {
        Ok(_) => {},
        Err(e) => {
            proof {
                assert((new_width as int) * (new_height as int) * 4 <= MAX_PIXELS * 4 || (
                new_width as int) * (new_height as int) > MAX_PIXELS) by (nonlinear_arith);
                assert(usize::MAX >= 0xFFFF_FFFFu64);
            }
            return Err(Error::InvalidRegion("Image exceeds maximum pixel limit".to_owned()));
        },
    }
    let filter = filter_for(scale);
    let width = capture.width;
    let height = capture.height;
    let out = resample_rgba(capture.data, width, height, new_width, new_height, filter);
    Ok(CaptureResult::new(out, new_width, new_height))
}
} // verus!
