use vstd::prelude::*;
use crate::buffer::checked_buffer_size;
use crate::capture::CaptureResult;
use crate::error::Error;
use crate::transform::Transform;
use crate::transform::apply_image_transform;
use crate::transform::flip_vertical;
use crate::transform::lemma_transformed_len;
use crate::transform::spec_flip_vertical;
use crate::transform::spec_transformed;
use crate::transform::spec_transformed_height;
use crate::transform::spec_transformed_width;
use crate::MAX_ATTEMPTS;
use crate::MAX_PIXELS;
use vstd::arithmetic::div_mod::lemma_fundamental_div_mod;
use vstd::arithmetic::div_mod::lemma_fundamental_div_mod_converse;

verus! {

/// The screencopy frame flag bit that marks rows delivered bottom to top.
pub const FLAG_Y_INVERT: u32 = 1;

/// A shared-memory pixel format of a delivered frame. Formats other than
/// the two the library converts are carried through untouched, with their
/// wire code recorded.
#[derive(Debug, Clone, Copy, PartialEq, Eq, Structural)]
pub enum PixelFormat {
    Xrgb8888,
    Argb8888,
    Unknown(u32),
}

/// The shared state of one in-flight screencopy frame, mutated by event
/// delivery and read by the polling caller.
#[derive(Debug, Clone, PartialEq, Eq)]
pub struct FrameState {
    /// A placeholder sized by the buffer descriptor; present once the
    /// descriptor arrived and its size check passed.
    pub buffer: Option<Vec<u8>>,
    pub width: u32,
    pub height: u32,
    pub format: Option<PixelFormat>,
    /// The compositor finished (successfully or not) with this frame.
    pub ready: bool,
    /// The compositor reported that this frame failed.
    pub failed: bool,
    /// The frame flag bits; bit zero is the Y-invert flag.
    pub flags: u32,
}

impl FrameState {
    pub fn new() -> (r: Self)
        ensures
            r.buffer is None,
            r.width == 0,
            r.height == 0,
            r.format is None,
            r.ready == false,
            r.failed == false,
            r.flags == 0,
    {
        Self { buffer: None, width: 0, height: 0, format: None, ready: false, failed: false,
            flags: 0 }
    }

    /// Applies a buffer-descriptor event: records the dimensions and the
    /// format, and allocates the placeholder buffer when the single size
    /// check passes; a failed size check marks the frame ready with no
    /// buffer, so the caller surfaces an error instead of truncating.
    pub fn apply_buffer_event(
        &mut self,
        format: Option<PixelFormat>,
        width: u32,
        height: u32,
        stride: u32,
    )
        ensures
            final(self).width == width,
            final(self).height == height,
            final(self).format == (if format is Some {
                format
            } else {
                old(self).format
            }),
            final(self).flags == old(self).flags,
            final(self).failed == old(self).failed,
            width * height <= MAX_PIXELS && crate::buffer::spec_buffer_bytes(
                width,
                height,
                4,
                Some(stride),
            ) <= usize::MAX ==> {
                &&& final(self).buffer matches Some(b) && b@ =~= Seq::new(
                    (stride * height) as nat,
                    |i: int| 0u8,
                )
                &&& final(self).ready == old(self).ready
            },
            !(width * height <= MAX_PIXELS && crate::buffer::spec_buffer_bytes(
                width,
                height,
                4,
                Some(stride),
            ) <= usize::MAX) ==> {
                &&& final(self).buffer is None
                &&& final(self).ready == true
            },
    {
        self.width = width;
        self.height = height;
        if let Some(f) = format {
            self.format = Some(f);
        }
        match checked_buffer_size(width, height, 4, Some(stride)) {
            Ok(size) => {
                let mut placeholder: Vec<u8> = Vec::new();
                placeholder.resize(size, 0u8);
                proof {
                    assert(placeholder@ =~= Seq::new((stride * height) as nat, |i: int| 0u8));
                }
                self.buffer = Some(placeholder);
            },
            Err(_) => {
                self.buffer = None;
                self.ready = true;
            },
        }
    }

    /// Applies a flags event: records the flag bits.
    pub fn apply_flags_event(&mut self, flags: u32)
        ensures
            *final(self) == (FrameState { flags, ..*old(self) }),
    {
        self.flags = flags;
    }

    /// Applies a ready event: the frame completed successfully.
    pub fn apply_ready_event(&mut self)
        ensures
            *final(self) == (FrameState { ready: true, ..*old(self) }),
    {
        self.ready = true;
    }

    /// Applies a failed event: the compositor reported that the frame
    /// failed; it is terminal, so the frame also counts as ready.
    pub fn apply_failed_event(&mut self)
        ensures
            *final(self) == (FrameState { ready: true, failed: true, ..*old(self) }),
    {
        self.ready = true;
        self.failed = true;
    }

    /// Whether the buffer descriptor has arrived.
    pub fn has_descriptor(&self) -> (r: bool)
        ensures
            r == (self.buffer is Some),
    {
        self.buffer.is_some()
    }

    pub fn is_ready(&self) -> (r: bool)
        ensures
            r == self.ready,
    {
        self.ready
    }
}

/// What a polling loop does next after examining the shared frame state.
#[derive(Debug, PartialEq, Eq)]
pub enum PollStep {
    /// The awaited state is reached; leave the loop.
    Proceed,
    /// Block on the event queue for more events.
    Dispatch,
    /// Give up with this error.
    Fail(Error),
}

/// The decision of the first per-frame polling loop, which waits for the
/// buffer descriptor: a compositor-reported failure is terminal and
/// surfaces as a capture-failed error; otherwise proceed once a buffer or
/// readiness is seen (a frame that is ready without a buffer is a
/// frame-capture error), fail after the attempt bound, and dispatch
/// otherwise.
pub fn descriptor_poll_step(state: &FrameState, attempts: usize) -> (r: PollStep)
    ensures
        match r {
            PollStep::Proceed => !state.failed && (state.buffer is Some) && !(state.ready
                && state.buffer is None),
            PollStep::Dispatch => !state.failed && state.buffer is None && !state.ready
                && attempts < MAX_ATTEMPTS,
            PollStep::Fail(e) => {
                &&& state.failed || (state.ready && state.buffer is None) || (
                state.buffer is None && !state.ready && attempts >= MAX_ATTEMPTS)
                &&& (e is CaptureFailed) <==> state.failed
                &&& !state.failed ==> e is FrameCapture
            },
        },
{
    if state.failed {
        return PollStep::Fail(Error::CaptureFailed);
    }
    if state.buffer.is_some() || state.ready {
        if state.ready && state.buffer.is_none() {
            return PollStep::Fail(
                Error::FrameCapture("Frame is ready but buffer was not received".to_owned()),
            );
        }
        return PollStep::Proceed;
    }
    if attempts >= MAX_ATTEMPTS {
        return PollStep::Fail(Error::FrameCapture("Timeout waiting for frame buffer".to_owned()));
    }
    PollStep::Dispatch
}

/// The decision of the second per-frame polling loop, which waits for the
/// ready flag: a compositor-reported failure is terminal and surfaces as a
/// capture-failed error even when a buffer was attached; otherwise proceed
/// once the frame is ready with its buffer, fail when it is ready without
/// one or after the attempt bound, dispatch otherwise.
pub fn ready_poll_step(state: &FrameState, attempts: usize) -> (r: PollStep)
    ensures
        match r {
            PollStep::Proceed => !state.failed && state.ready && state.buffer is Some,
            PollStep::Dispatch => !state.failed && !state.ready && attempts < MAX_ATTEMPTS,
            PollStep::Fail(e) => {
                &&& state.failed || (state.ready && state.buffer is None) || (!state.ready
                    && attempts >= MAX_ATTEMPTS)
                &&& (e is CaptureFailed) <==> state.failed
                &&& !state.failed ==> e is FrameCapture
            },
        },
{
    if state.failed {
        return PollStep::Fail(Error::CaptureFailed);
    }
    if state.ready {
        if state.buffer.is_none() {
            return PollStep::Fail(
                Error::FrameCapture("Frame is ready but buffer was not received".to_owned()),
            );
        }
        return PollStep::Proceed;
    }
    if attempts >= MAX_ATTEMPTS {
        return PollStep::Fail(
            Error::FrameCapture("Timeout waiting for frame capture completion".to_owned()),
        );
    }
    PollStep::Dispatch
}

/// The shared-memory buffer parameters derived from a received descriptor:
/// the dimensions, the packed stride of four bytes per pixel, the byte
/// size, and the format (the X-channel format when none was reported). A
/// zero dimension means the compositor failed the capture; overflowing
/// sizes surface as buffer-creation or invalid-region errors.
pub fn frame_buffer_params(state: &FrameState) -> (r: Result<
    (u32, u32, u32, usize, PixelFormat),
    Error,
>)
    ensures
        match r {
            Ok((width, height, stride, size, format)) => {
                &&& width == state.width && height == state.height
                &&& width > 0 && height > 0
                &&& stride == 4 * width
                &&& size == stride * height
                &&& width * height <= MAX_PIXELS
                &&& format == (if state.format is Some {
                    state.format.unwrap()
                } else {
                    PixelFormat::Xrgb8888
                })
            },
            Err(e) => {
                &&& state.width == 0 || state.height == 0 || 4 * state.width > u32::MAX || (
                state.width * state.height > MAX_PIXELS) || 4 * state.width * state.height
                    > usize::MAX
                &&& (state.width == 0 || state.height == 0) <==> e is CaptureFailed
                &&& state.width > 0 && state.height > 0 && 4 * state.width > u32::MAX
                    ==> e is BufferCreation
                &&& state.width > 0 && state.height > 0 && 4 * state.width <= u32::MAX && (
                state.width * state.height > MAX_PIXELS) ==> e is InvalidRegion
            },
        },
{
    let width = state.width;
    let height = state.height;
    if width == 0 || height == 0 {
        return Err(Error::CaptureFailed);
    }
    if width > u32::MAX / 4 {
        return Err(Error::BufferCreation("Buffer size overflow".to_owned()));
    }
    let stride = width * 4;
    let size = match checked_buffer_size(width, height, 4, Some(stride)) {
        Ok(size) => size,
        Err(e) => {
            proof {
                assert(4 * (width as int) * (height as int) == (4 * width) * height)
                    by (nonlinear_arith);
            }
            return Err(e);
        },
    };
    let format = match state.format {
        Some(f) => f,
        None => PixelFormat::Xrgb8888,
    };
    proof {
        assert((4 * width) * height == 4 * (width as int) * (height as int)) by (nonlinear_arith);
    }
    Ok((width, height, stride, size, format))
}

/// A packed pixel buffer with each complete four-byte pixel rewritten from
/// wire BGRA order: bytes zero and two swapped and the alpha byte forced
/// opaque. Trailing bytes of an incomplete pixel are unchanged.
pub open spec fn spec_swizzled(s: Seq<u8>) -> Seq<u8> {
    Seq::new(
        s.len(),
        |i: int|
            {
                let b = i % 4;
                let base = i - b;
                if base + 4 <= s.len() {
                    if b == 0 {
                        s[base + 2]
                    } else if b == 1 {
                        s[i]
                    } else if b == 2 {
                        s[base]
                    } else {
                        255u8
                    }
                } else {
                    s[i]
                }
            },
    )
}

/// A delivered buffer normalised to RGBA byte order: the X-channel wire
/// format is swizzled; every other format passes through untouched.
pub open spec fn spec_normalized(s: Seq<u8>, format: PixelFormat) -> Seq<u8> {
    if format == PixelFormat::Xrgb8888 {
        spec_swizzled(s)
    } else {
        s
    }
}

/// Rewrites a delivered buffer to RGBA byte order in place according to its
/// wire format.
pub fn normalize_pixels(data: &mut Vec<u8>, format: PixelFormat)
    ensures
        final(data)@ == spec_normalized(old(data)@, format),
{
    let is_xrgb = match format {
        PixelFormat::Xrgb8888 => true,
        _ => false,
    };
    if !is_xrgb {
        return ;
    }
    let ghost orig = data@;
    let n = data.len();
    let chunks = n / 4;
    proof {
        lemma_fundamental_div_mod(n as int, 4);
    }
    let mut c: usize = 0;
    while c < chunks
        invariant
            chunks == n as int / 4,
            n == data@.len(),
            orig.len() == n,
            4 * (chunks as int) <= n,
            c <= chunks,
            forall|i: int|
                0 <= i < n ==> data@[i] == (if i < 4 * (c as int) {
                    spec_swizzled(orig)[i]
                } else {
                    orig[i]
                }),
        decreases chunks - c,
    {
        let base = 4 * c;
        let b0 = data[base];
        let b2 = data[base + 2];
        data.set(base, b2);
        data.set(base + 2, b0);
        data.set(base + 3, 255);
        proof {
            assert forall|i: int|
                0 <= i < n implies data@[i] == (if i < 4 * (c as int + 1) {
                    spec_swizzled(orig)[i]
                } else {
                    orig[i]
                }) by {
                if 4 * (c as int) <= i < 4 * (c as int + 1) {
                    let b = i - 4 * (c as int);
                    lemma_fundamental_div_mod_converse(i, 4, c as int, b);
                }
            }
        }
        c += 1;
    }
    proof {
        assert forall|i: int| 0 <= i < n implies data@[i] == spec_swizzled(orig)[i] by {
            if i >= 4 * (chunks as int) {
                let b = i % 4;
                let base = i - b;
                vstd::arithmetic::div_mod::lemma_mod_pos_bound(i, 4);
                lemma_fundamental_div_mod_converse(i, 4, (i - i % 4) / 4, b);
                assert(base + 4 > n) by {
                    lemma_fundamental_div_mod(i, 4);
                    if base + 4 <= n {
                        assert(i / 4 >= chunks) by (nonlinear_arith)
                            requires
                                i >= 4 * (chunks as int),
                                i == 4 * (i / 4) + i % 4,
                                0 <= i % 4 < 4,
                        ;
                        assert(4 * (i / 4) + 4 <= n);
                        assert(chunks == n as int / 4);
                        assert(false) by (nonlinear_arith)
                            requires
                                i / 4 >= chunks,
                                chunks == n as int / 4,
                                4 * (i / 4) + 4 <= n,
                                n == 4 * (chunks as int) + n as int % 4,
                                0 <= n as int % 4 < 4,
                        ;
                    }
                }
            }
        }
        assert(data@ =~= spec_swizzled(orig));
    }
}

/// The final bitmap of a capture: the delivered bytes normalised to RGBA,
/// then the output transform applied, then a vertical flip when the
/// Y-invert flag is set; the resulting dimensions come from the transform.
pub open spec fn spec_finished(
    s: Seq<u8>,
    w: int,
    h: int,
    format: PixelFormat,
    t: Transform,
    flags: u32,
) -> (Seq<u8>, int, int) {
    let normalized = spec_normalized(s, format);
    let transformed = spec_transformed(normalized, w, h, t);
    let tw = spec_transformed_width(w, h, t);
    let th = spec_transformed_height(w, h, t);
    if flags & FLAG_Y_INVERT != 0 {
        (spec_flip_vertical(transformed, tw, th), tw, th)
    } else {
        (transformed, tw, th)
    }
}

/// Turns the raw bytes of a completed frame into the returned bitmap:
/// normalises the byte order by format, applies the output's transform,
/// and applies a vertical flip when the frame's Y-invert flag is set —
/// in that order, which the wire semantics require.
pub fn finish_capture(
    data: Vec<u8>,
    width: u32,
    height: u32,
    format: PixelFormat,
    transform: Transform,
    flags: u32,
) -> (r: CaptureResult)
    requires
        data@.len() == 4 * width * height,
        width * height <= MAX_PIXELS,
    ensures
        r.wf(),
        (r.data@, r.width as int, r.height as int) == spec_finished(
            data@,
            width as int,
            height as int,
            format,
            transform,
            flags,
        ),
{
    let mut bytes = data;
    let ghost orig = bytes@;
    normalize_pixels(&mut bytes, format);
    proof {
        assert(bytes@.len() == 4 * width * height);
    }
    let (transformed, tw, th) = apply_image_transform(
        bytes.as_slice(),
        width,
        height,
        transform,
    );
    proof {
        lemma_transformed_len(
            spec_normalized(orig, format),
            width as int,
            height as int,
            transform,
        );
    }
    if flags & FLAG_Y_INVERT != 0 {
        let (flipped, fw, fh) = flip_vertical(transformed.as_slice(), tw, th);
        proof {
            assert((fw as int) * (fh as int) <= MAX_PIXELS);
            assert(spec_flip_vertical(transformed@, tw as int, th as int).len() == 4 * (tw as int)
                * (th as int));
            assert(4 * (fw as int) * (fh as int) == 4 * (tw as int) * (th as int));
        }
        CaptureResult::new(flipped, fw, fh)
    } else {
        CaptureResult::new(transformed, tw, th)
    }
}

} // verus!
