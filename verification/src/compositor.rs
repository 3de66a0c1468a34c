use vstd::prelude::*;
use crate::capture::CaptureResult;
use crate::error::Error;
use crate::geometry::Box;
use crate::output::OutputEntry;
use crate::output::OutputInfo;
use crate::output::OutputRegistry;
use crate::scaling::Scale;
use crate::scaling::scale_image_data;
use crate::scaling::spec_scaled_dim;
use crate::scaling::spec_upscaled;
use crate::scaling::spec_resampled;
use crate::scaling::spec_filter_for;
use crate::buffer::blit_capture;
use crate::buffer::spec_blitted;
use crate::MAX_PIXELS;

verus! {

/// A value clamped into a closed interval.
pub open spec fn spec_clamp(v: int, lo: int, hi: int) -> int {
    if v < lo {
        lo
    } else if v > hi {
        hi
    } else {
        v
    }
}

/// The scale used to map an output's logical coordinates to physical
/// pixels: the derived fractional scale when logical geometry is known, the
/// integer scale otherwise.
pub open spec fn spec_effective_scale(o: OutputInfo) -> Scale {
    if o.logical_scale_known {
        o.logical_scale
    } else {
        Scale { num: o.scale as u32, den: 1 }
    }
}

/// One per-output piece of a composite: which output to capture, the
/// sub-rectangle in that output's physical pixels, the output's effective
/// scale, and where the piece lands in the destination canvas.
#[derive(Debug, Clone, Copy, PartialEq, Eq)]
pub struct CompositeStep {
    /// The index of the output in the registry's discovery order.
    pub output_index: usize,
    /// The rectangle to capture, in the output's physical coordinates.
    pub physical_region: Box,
    /// The output's effective scale; the captured piece is resampled by its
    /// reciprocal before it is painted.
    pub scale: Scale,
    /// Where the piece lands in the destination, in logical pixels.
    pub offset_x: usize,
    pub offset_y: usize,
}

/// The composite piece one output contributes for a logical region: the
/// intersection of the output's logical box with the region, converted to
/// physical pixels by flooring the near edges and ceiling the far edges,
/// clamped to the output's physical rectangle; no piece when the
/// intersection or the clamped rectangle is empty.
pub open spec fn spec_step_for(region: Box, info: OutputInfo, idx: int) -> Option<CompositeStep> {
    let output_box = Box {
        x: info.logical_x,
        y: info.logical_y,
        width: info.logical_width,
        height: info.logical_height,
    };
    if output_box.spec_intersects(&region) {
        let inter = output_box.spec_intersection(&region).unwrap();
        let sc = spec_effective_scale(info);
        let lx = inter.x - info.logical_x;
        let ly = inter.y - info.logical_y;
        let num = sc.num as int;
        let den = sc.den as int;
        let x0 = spec_clamp(lx * num / den, 0, info.width as int);
        let y0 = spec_clamp(ly * num / den, 0, info.height as int);
        let x1 = spec_clamp(((lx + inter.width) * num + den - 1) / den, 0, info.width as int);
        let y1 = spec_clamp(((ly + inter.height) * num + den - 1) / den, 0, info.height as int);
        if x1 <= x0 || y1 <= y0 {
            None
        } else {
            Some(
                CompositeStep {
                    output_index: idx as usize,
                    physical_region: Box {
                        x: x0 as i32,
                        y: y0 as i32,
                        width: (x1 - x0) as i32,
                        height: (y1 - y0) as i32,
                    },
                    scale: sc,
                    offset_x: (inter.x - region.x) as usize,
                    offset_y: (inter.y - region.y) as usize,
                },
            )
        }
    } else {
        None
    }
}

/// The composite piece one output contributes for a logical region.
pub fn step_for_output(region: &Box, info: &OutputInfo, idx: usize) -> (r: Option<CompositeStep>)
    requires
        info.wf(),
    ensures
        r == spec_step_for(*region, *info, idx as int),
{
    let output_box = Box::new(info.logical_x, info.logical_y, info.logical_width,
        info.logical_height);
    let inter = match output_box.intersection(region) {
        Some(inter) => inter,
        None => {
            return None;
        },
    };
    let sc = if info.logical_scale_known {
        info.logical_scale
    } else {
        Scale::new(info.scale as u32, 1)
    };
    let lx: u64 = (inter.x() as i64 - info.logical_x as i64) as u64;
    let ly: u64 = (inter.y() as i64 - info.logical_y as i64) as u64;
    let lw: u64 = inter.width() as u64;
    let lh: u64 = inter.height() as u64;
    let num: u64 = sc.num as u64;
    let den: u64 = sc.den as u64;
    proof {
        assert(lx * num <= 0x7FFF_FFFFu64 * 0xFFFF_FFFFu64 && ly * num <= 0x7FFF_FFFFu64
            * 0xFFFF_FFFFu64 && (lx + lw) * num <= 0x7FFF_FFFFu64 * 0xFFFF_FFFFu64 && (ly + lh)
            * num <= 0x7FFF_FFFFu64 * 0xFFFF_FFFFu64) by (nonlinear_arith)
            requires
                lx + lw <= 0x7FFF_FFFFu64,
                ly + lh <= 0x7FFF_FFFFu64,
                num <= 0xFFFF_FFFFu64,
        ;
    }
    let x0u: u64 = lx * num / den;
    let y0u: u64 = ly * num / den;
    let x1u: u64 = ((lx + lw) * num + den - 1) / den;
    let y1u: u64 = ((ly + lh) * num + den - 1) / den;
    let pw: u64 = info.width as u64;
    let ph: u64 = info.height as u64;
    let x0 = if x0u > pw {
        pw
    } else {
        x0u
    };
    let y0 = if y0u > ph {
        ph
    } else {
        y0u
    };
    let x1 = if x1u > pw {
        pw
    } else {
        x1u
    };
    let y1 = if y1u > ph {
        ph
    } else {
        y1u
    };
    if x1 <= x0 || y1 <= y0 {
        return None;
    }
    let physical_region = Box::new(x0 as i32, y0 as i32, (x1 - x0) as i32, (y1 - y0) as i32);
    let offset_x: usize = (inter.x() as i64 - region.x() as i64) as usize;
    let offset_y: usize = (inter.y() as i64 - region.y() as i64) as usize;
    Some(
        CompositeStep {
            output_index: idx,
            physical_region,
            scale: sc,
            offset_x,
            offset_y,
        },
    )
}

/// The pieces all outputs contribute for a logical region, in discovery
/// order, starting at position `idx` of the registry.
pub open spec fn spec_plan_steps(region: Box, entries: Seq<OutputEntry>, idx: int) -> Seq<
    CompositeStep,
>
    decreases entries.len() - idx,
{
    if idx < 0 || idx >= entries.len() {
        Seq::empty()
    } else {
        let rest = spec_plan_steps(region, entries, idx + 1);
        match spec_step_for(region, entries[idx].info, idx) {
            Some(step) => seq![step] + rest,
            None => rest,
        }
    }
}

/// The whole of a composite for a logical region: the destination canvas
/// dimensions and the per-output pieces to capture, resample and paint.
#[derive(Debug, Clone, PartialEq, Eq)]
pub struct CompositePlan {
    pub width: u32,
    pub height: u32,
    pub steps: Vec<CompositeStep>,
}

/// Plans a composite of a logical region across the registry's outputs.
/// Fails with an invalid-region error when the region has no positive
/// extent, when its pixel count exceeds `MAX_PIXELS`, or when it intersects
/// no output.
pub fn plan_composite(region: &Box, registry: &OutputRegistry) -> (r: Result<CompositePlan, Error>)
    requires
        registry.wf(),
    ensures
        match r {
            Ok(plan) => {
                &&& region.width > 0 && region.height > 0
                &&& (region.width as int) * (region.height as int) <= MAX_PIXELS
                &&& plan.width == region.width && plan.height == region.height
                &&& plan.steps@ == spec_plan_steps(*region, registry.entries@, 0)
                &&& plan.steps@.len() > 0
            },
            Err(e) => {
                &&& e is InvalidRegion
                &&& region.width <= 0 || region.height <= 0 || (region.width as int) * (
                region.height as int) > MAX_PIXELS || spec_plan_steps(
                    *region,
                    registry.entries@,
                    0,
                ).len() == 0
            },
        },
{
    if region.width() <= 0 || region.height() <= 0 {
        return Err(
            Error::InvalidRegion("Capture region must have positive width and height".to_owned()),
        );
    }
    let dest_width = region.width() as u32;
    let dest_height = region.height() as u32;
    match crate::buffer::checked_buffer_size(dest_width, dest_height, 4, None) {
        Ok(_) => {},
        Err(_) => {
            return Err(Error::InvalidRegion("Image exceeds maximum pixel limit".to_owned()));
        },
    }
    let mut steps: Vec<CompositeStep> = Vec::new();
    let n = registry.entries.len();
    let mut i: usize = 0;
    while i < n
        invariant
            registry.wf(),
            n == registry.entries@.len(),
            i <= n,
            spec_plan_steps(*region, registry.entries@, 0) == steps@ + spec_plan_steps(
                *region,
                registry.entries@,
                i as int,
            ),
        decreases n - i,
    {
        let step = step_for_output(region, &registry.entries[i].info, i);
        if let Some(step) = step {
            steps.push(step);
        }
        proof {
            assert(spec_plan_steps(*region, registry.entries@, 0) == steps@ + spec_plan_steps(
                *region,
                registry.entries@,
                i as int + 1,
            )) by {
                assert(spec_plan_steps(*region, registry.entries@, i as int)
                    == match spec_step_for(*region, registry.entries@[i as int].info, i as int) {
                    Some(s) => seq![s] + spec_plan_steps(*region, registry.entries@, i as int + 1),
                    None => spec_plan_steps(*region, registry.entries@, i as int + 1),
                });
                assert(spec_plan_steps(*region, registry.entries@, 0) =~= steps@
                    + spec_plan_steps(*region, registry.entries@, i as int + 1));
            }
        }
        i += 1;
    }
    proof {
        assert(spec_plan_steps(*region, registry.entries@, n as int) =~= Seq::<
            CompositeStep,
        >::empty());
        assert(steps@ =~= spec_plan_steps(*region, registry.entries@, 0));
    }
    if steps.len() == 0 {
        return Err(
            Error::InvalidRegion("Capture region does not intersect with any output".to_owned()),
        );
    }
    Ok(CompositePlan { width: dest_width, height: dest_height, steps })
}


/// The reciprocal of a scale factor.
pub open spec fn spec_inverted(sc: Scale) -> Scale {
    Scale { num: sc.den, den: sc.num }
}

/// The bitmap `scale_image_data` produces for a capture and a factor, and
/// its dimensions; nothing when that call fails.
pub open spec fn spec_scaled_result(c: CaptureResult, sc: Scale) -> Option<(Seq<u8>, int, int)> {
    if sc.spec_is_one() {
        Some((c.data@, c.width as int, c.height as int))
    } else if sc.spec_fast_ok() {
        let k = sc.num as int / sc.den as int;
        if c.width * k <= u32::MAX && c.height * k <= u32::MAX && (c.width * k) * (c.height * k)
            <= MAX_PIXELS {
            Some(
                (
                    spec_upscaled(c.data@, c.width as int, c.height as int, k),
                    c.width * k,
                    c.height * k,
                ),
            )
        } else {
            None
        }
    } else {
        let nw = spec_scaled_dim(c.width as int, sc);
        let nh = spec_scaled_dim(c.height as int, sc);
        if nw > 0 && nh > 0 && nw * nh <= MAX_PIXELS {
            Some(
                (
                    spec_resampled(
                        c.data@,
                        c.width as int,
                        c.height as int,
                        nw,
                        nh,
                        spec_filter_for(sc),
                    ),
                    nw,
                    nh,
                ),
            )
        } else {
            None
        }
    }
}

/// The destination bytes after the pieces from position `i` on are
/// resampled by the reciprocal of their outputs' scales and painted at
/// their offsets, in order; nothing when a resample fails.
pub open spec fn spec_composited(
    dest: Seq<u8>,
    dw: int,
    dh: int,
    steps: Seq<CompositeStep>,
    caps: Seq<CaptureResult>,
    i: int,
) -> Option<Seq<u8>>
    decreases steps.len() - i,
{
    if i < 0 || i >= steps.len() {
        Some(dest)
    } else {
        let sc = steps[i].scale;
        let scaled = if sc.spec_is_one() {
            Some((caps[i].data@, caps[i].width as int, caps[i].height as int))
        } else {
            spec_scaled_result(caps[i], spec_inverted(sc))
        };
        match scaled {
            None => None,
            Some(piece) => spec_composited(
                spec_blitted(
                    dest,
                    dw,
                    dh,
                    piece.0,
                    piece.1,
                    piece.2,
                    steps[i].offset_x as int,
                    steps[i].offset_y as int,
                ),
                dw,
                dh,
                steps,
                caps,
                i + 1,
            ),
        }
    }
}

/// All-zero destination bytes for a canvas of the given dimensions.
pub open spec fn spec_zero_canvas(w: int, h: int) -> Seq<u8> {
    Seq::new((4 * w * h) as nat, |i: int| 0u8)
}

/// Builds the composited image out of a plan's dimensions and pieces and
/// the captures taken for them: each capture is resampled by the reciprocal
/// of its output's effective scale and painted into a zeroed canvas at its
/// offset, in order. Fails when a resample fails.
#[verifier::loop_isolation(false)]
pub fn assemble_composite(
    width: u32,
    height: u32,
    steps: &Vec<CompositeStep>,
    captures: Vec<CaptureResult>,
) -> (r: Result<CaptureResult, Error>)
    requires
        captures@.len() == steps@.len(),
        width * height <= MAX_PIXELS,
        forall|i: int| 0 <= i < captures@.len() ==> (#[trigger] captures@[i]).wf(),
        forall|i: int| 0 <= i < steps@.len() ==> (#[trigger] steps@[i]).scale.wf(),
    ensures
        match r {
            Ok(out) => {
                &&& out.wf()
                &&& out.width == width && out.height == height
                &&& Some(out.data@) == spec_composited(
                    spec_zero_canvas(width as int, height as int),
                    width as int,
                    height as int,
                    steps@,
                    captures@,
                    0,
                )
            },
            Err(e) => {
                &&& spec_composited(
                    spec_zero_canvas(width as int, height as int),
                    width as int,
                    height as int,
                    steps@,
                    captures@,
                    0,
                ) is None
                &&& e is ScalingFailed || e is InvalidRegion
            },
        },
{
    let bytes = match crate::buffer::checked_buffer_size(width, height, 4, None) {
        Ok(b) => b,
        Err(_) => {
            proof {
                assert((width as int) * (height as int) * 4 <= MAX_PIXELS * 4)
                    by (nonlinear_arith)
                    requires
                        (width as int) * (height as int) <= MAX_PIXELS,
                ;
                assert(usize::MAX >= 0xFFFF_FFFFu64);
                assert(false);
            }
            return Err(Error::InvalidRegion("Image exceeds maximum pixel limit".to_owned()));
        },
    };
    let mut dest: Vec<u8> = Vec::new();
    dest.resize(bytes, 0u8);
    proof {
        assert((width as int) * (height as int) * 4 == 4 * (width as int) * (height as int))
            by (nonlinear_arith);
        assert(dest@ =~= spec_zero_canvas(width as int, height as int));
    }
    let ghost all_caps = captures@;
    let ghost zero = spec_zero_canvas(width as int, height as int);
    let mut captures = captures;
    let n = steps.len();
    let mut i: usize = 0;
    proof {
        assert(captures@ =~= all_caps.skip(0));
    }
    while i < n
        invariant
            n == steps@.len(),
            all_caps.len() == n,
            i <= n,
            captures@ =~= all_caps.skip(i as int),
            forall|k: int| 0 <= k < all_caps.len() ==> (#[trigger] all_caps[k]).wf(),
            forall|k: int| 0 <= k < steps@.len() ==> (#[trigger] steps@[k]).scale.wf(),
            width * height <= MAX_PIXELS,
            dest@.len() == 4 * width * height,
            spec_composited(zero, width as int, height as int, steps@, all_caps, 0)
                == spec_composited(dest@, width as int, height as int, steps@, all_caps, i as int),
        decreases n - i,
    {
        let capture = captures.remove(0);
        proof {
            assert(capture == all_caps[i as int]);
            assert(captures@ =~= all_caps.skip(i as int + 1));
        }
        let step = steps[i];
        let scaled = if step.scale.is_one() {
            capture
        } else {
            match scale_image_data(capture, step.scale.invert()) {
                Ok(s) => s,
                Err(e) => {
                    proof {
                        assert(spec_scaled_result(all_caps[i as int], spec_inverted(step.scale))
                            is None);
                        assert(spec_composited(dest@, width as int, height as int, steps@,
                            all_caps, i as int) is None);
                    }
                    return Err(e);
                },
            }
        };
        proof {
            assert(scaled.wf());
        }
        blit_capture(&mut dest, width as usize, height as usize, &scaled, step.offset_x,
            step.offset_y);
        i += 1;
    }
    proof {
        assert(spec_composited(dest@, width as int, height as int, steps@, all_caps, n as int)
            == Some(dest@));
    }
    Ok(CaptureResult::new(dest, width, height))
}

/// The bounding interval of all outputs' logical rectangles, as
/// `(min x, min y, max right edge, max bottom edge)`, over the first
/// `n` registry entries.
pub open spec fn spec_bounds(entries: Seq<OutputEntry>, n: int) -> (int, int, int, int)
    decreases n,
{
    if n <= 0 {
        (0, 0, 0, 0)
    } else {
        let o = entries[n - 1].info;
        let right = o.logical_x + o.logical_width;
        let bottom = o.logical_y + o.logical_height;
        if n == 1 {
            (o.logical_x as int, o.logical_y as int, right, bottom)
        } else {
            let prev = spec_bounds(entries, n - 1);
            (
                vstd::math::min(prev.0, o.logical_x as int),
                vstd::math::min(prev.1, o.logical_y as int),
                vstd::math::max(prev.2, right),
                vstd::math::max(prev.3, bottom),
            )
        }
    }
}

/// The logical region spanning every output: the bounding box over all
/// outputs' logical rectangles. Fails with a no-outputs error when the
/// registry is empty and with an invalid-region error when the box does not
/// fit the rectangle type.
pub fn bounding_region(registry: &OutputRegistry) -> (r: Result<Box, Error>)
    requires
        registry.wf(),
    ensures
        match r {
            Ok(b) => {
                &&& registry.entries@.len() > 0
                &&& {
                    let bounds = spec_bounds(
                        registry.entries@,
                        registry.entries@.len() as int,
                    );
                    &&& b.x == bounds.0 && b.y == bounds.1
                    &&& b.width == bounds.2 - bounds.0
                    &&& b.height == bounds.3 - bounds.1
                }
            },
            Err(e) => {
                ||| registry.entries@.len() == 0 && e is NoOutputs
                ||| {
                    let bounds = spec_bounds(
                        registry.entries@,
                        registry.entries@.len() as int,
                    );
                    &&& registry.entries@.len() > 0
                    &&& (bounds.2 - bounds.0 > i32::MAX || bounds.3 - bounds.1 > i32::MAX
                        || bounds.2 - bounds.0 < i32::MIN || bounds.3 - bounds.1 < i32::MIN)
                    &&& e is InvalidRegion
                }
            },
        },
{
    let n = registry.entries.len();
    if n == 0 {
        return Err(Error::NoOutputs);
    }
    let first = &registry.entries[0].info;
    let mut min_x: i64 = first.logical_x as i64;
    let mut min_y: i64 = first.logical_y as i64;
    let mut max_x: i64 = first.logical_x as i64 + first.logical_width as i64;
    let mut max_y: i64 = first.logical_y as i64 + first.logical_height as i64;
    let mut i: usize = 1;
    while i < n
        invariant
            registry.wf(),
            n == registry.entries@.len(),
            1 <= i <= n,
            -0x8000_0000i64 <= min_x <= 0x7FFF_FFFFi64,
            -0x8000_0000i64 <= min_y <= 0x7FFF_FFFFi64,
            -0x1_0000_0000i64 <= max_x <= 0x1_0000_0000i64,
            -0x1_0000_0000i64 <= max_y <= 0x1_0000_0000i64,
            (min_x as int, min_y as int, max_x as int, max_y as int) == spec_bounds(
                registry.entries@,
                i as int,
            ),
        decreases n - i,
    {
        let o = &registry.entries[i].info;
        let right: i64 = o.logical_x as i64 + o.logical_width as i64;
        let bottom: i64 = o.logical_y as i64 + o.logical_height as i64;
        if (o.logical_x as i64) < min_x {
            min_x = o.logical_x as i64;
        }
        if (o.logical_y as i64) < min_y {
            min_y = o.logical_y as i64;
        }
        if right > max_x {
            max_x = right;
        }
        if bottom > max_y {
            max_y = bottom;
        }
        i += 1;
    }
    let width = max_x - min_x;
    let height = max_y - min_y;
    if width > i32::MAX as i64 || height > i32::MAX as i64 || width < i32::MIN as i64 || height
        < i32::MIN as i64 {
        return Err(Error::InvalidRegion("Capture region exceeds supported range".to_owned()));
    }
    Ok(Box::new(min_x as i32, min_y as i32, width as i32, height as i32))
}

/// Rational comparison of scale factors is transitive.
proof fn lemma_scale_le_trans(a: Scale, b: Scale, c: Scale)
    requires
        a.wf(),
        b.wf(),
        c.wf(),
        spec_scale_le(a, b),
        spec_scale_le(b, c),
    ensures
        spec_scale_le(a, c),
{
    assert(a.num * c.den <= c.num * a.den) by (nonlinear_arith)
        requires
            a.num >= 1 && a.den >= 1 && b.num >= 1 && b.den >= 1 && c.num >= 1 && c.den >= 1,
            a.num * b.den <= b.num * a.den,
            b.num * c.den <= c.num * b.den,
    ;
}

/// One scale factor is at most another: `a.num / a.den <= b.num / b.den`,
/// compared exactly by cross-multiplication.
pub open spec fn spec_scale_le(a: Scale, b: Scale) -> bool {
    a.num * b.den <= b.num * a.den
}

/// Whether an output is considered for a greatest-scale query over a
/// region: every output for the whole-desktop query, otherwise those whose
/// logical rectangle intersects the region.
pub open spec fn spec_scale_candidate(o: OutputInfo, region: Option<Box>) -> bool {
    match region {
        None => true,
        Some(region) => (Box {
            x: o.logical_x,
            y: o.logical_y,
            width: o.logical_width,
            height: o.logical_height,
        }).spec_intersects(&region),
    }
}

/// The greatest effective scale among the outputs a region touches (all
/// outputs when no region is given), never below one. Fails with a
/// no-outputs error when the registry is empty, and with an invalid-region
/// error when a region intersects no output.
pub fn greatest_scale_for_region(registry: &OutputRegistry, region: Option<Box>) -> (r: Result<
    Scale,
    Error,
>)
    requires
        registry.wf(),
    ensures
        match r {
            Ok(sc) => {
                &&& sc.wf()
                &&& spec_scale_le(Scale { num: 1, den: 1 }, sc)
                &&& forall|i: int|
                    0 <= i < registry.entries@.len() && spec_scale_candidate(
                        (#[trigger] registry.entries@[i]).info,
                        region,
                    ) ==> spec_scale_le(spec_effective_scale(registry.entries@[i].info), sc)
                &&& (sc == Scale { num: 1, den: 1 } || exists|i: int|
                    0 <= i < registry.entries@.len() && spec_scale_candidate(
                        (#[trigger] registry.entries@[i]).info,
                        region,
                    ) && sc == spec_effective_scale(registry.entries@[i].info))
                &&& exists|i: int|
                    0 <= i < registry.entries@.len() && spec_scale_candidate(
                        (#[trigger] registry.entries@[i]).info,
                        region,
                    )
            },
            Err(e) => {
                ||| registry.entries@.len() == 0 && e is NoOutputs
                ||| {
                    &&& registry.entries@.len() > 0
                    &&& e is InvalidRegion
                    &&& forall|i: int|
                        0 <= i < registry.entries@.len() ==> !spec_scale_candidate(
                            (#[trigger] registry.entries@[i]).info,
                            region,
                        )
                }
            },
        },
{
    let n = registry.entries.len();
    if n == 0 {
        return Err(Error::NoOutputs);
    }
    let mut best = Scale::new(1, 1);
    let mut any: bool = false;
    let mut i: usize = 0;
    while i < n
        invariant
            registry.wf(),
            n == registry.entries@.len(),
            i <= n,
            best.wf(),
            spec_scale_le(Scale { num: 1, den: 1 }, best),
            forall|k: int|
                0 <= k < i && spec_scale_candidate(
                    (#[trigger] registry.entries@[k]).info,
                    region,
                ) ==> spec_scale_le(spec_effective_scale(registry.entries@[k].info), best),
            best == (Scale { num: 1, den: 1 }) || exists|k: int|
                0 <= k < i && spec_scale_candidate((#[trigger] registry.entries@[k]).info, region)
                    && best == spec_effective_scale(registry.entries@[k].info),
            any <==> exists|k: int|
                0 <= k < i && spec_scale_candidate((#[trigger] registry.entries@[k]).info, region),
        decreases n - i,
    {
        let o = &registry.entries[i].info;
        let considered = match &region {
            None => true,
            Some(reg) => {
                let output_box = Box::new(o.logical_x, o.logical_y, o.logical_width,
                    o.logical_height);
                output_box.intersects(reg)
            },
        };
        if considered {
            any = true;
            let candidate = if o.logical_scale_known {
                o.logical_scale
            } else {
                Scale::new(o.scale as u32, 1)
            };
            proof {
                assert((candidate.num as u64) * (best.den as u64) <= 0xFFFF_FFFF_FFFF_FFFF && (
                best.num as u64) * (candidate.den as u64) <= 0xFFFF_FFFF_FFFF_FFFF)
                    by (nonlinear_arith)
                    requires
                        candidate.num as u64 <= 0xFFFF_FFFFu64,
                        candidate.den as u64 <= 0xFFFF_FFFFu64,
                        best.num as u64 <= 0xFFFF_FFFFu64,
                        best.den as u64 <= 0xFFFF_FFFFu64,
                ;
            }
            let ghost prev_best = best;
            if (candidate.num as u64) * (best.den as u64) > (best.num as u64) * (candidate.den
                as u64) {
                best = candidate;
            }
            proof {
                assert(candidate.wf());
                if best == candidate && prev_best != candidate {
                    assert(spec_scale_le(prev_best, candidate));
                    lemma_scale_le_trans(Scale { num: 1, den: 1 }, prev_best, candidate);
                    assert forall|k: int|
                        0 <= k < i + 1 && spec_scale_candidate(
                            (#[trigger] registry.entries@[k]).info,
                            region,
                        ) implies spec_scale_le(
                        spec_effective_scale(registry.entries@[k].info),
                        best,
                    ) by {
                        if k < i {
                            assert(registry.entries@[k].info.wf());
                            lemma_scale_le_trans(
                                spec_effective_scale(registry.entries@[k].info),
                                prev_best,
                                candidate,
                            );
                        }
                    }
                } else {
                    assert(spec_scale_le(candidate, best));
                }
            }
        }
        i += 1;
    }
    if !any {
        return Err(
            Error::InvalidRegion(
                "Capture region does not intersect with any output".to_owned(),
            ),
        );
    }
    Ok(best)
}

/// Checks a capture region in an output's physical coordinate space: the
/// extent must be positive and the origin non-negative.
pub fn validate_capture_region(region: &Box) -> (r: Result<(), Error>)
    ensures
        match r {
            Ok(()) => region.width > 0 && region.height > 0 && region.x >= 0 && region.y >= 0,
            Err(e) => {
                &&& region.width <= 0 || region.height <= 0 || region.x < 0 || region.y < 0
                &&& e is InvalidRegion
            },
        },
{
    if region.width() <= 0 || region.height() <= 0 {
        return Err(
            Error::InvalidRegion("Capture region must have positive width and height".to_owned()),
        );
    }
    if region.x() < 0 || region.y() < 0 {
        return Err(
            Error::InvalidRegion("Capture region origin must be non-negative".to_owned()),
        );
    }
    Ok(())
}

/// The rectangle one batch request captures of an output: the requested
/// sub-region when one is given — it must lie inside the output's physical
/// rectangle — and the whole physical rectangle otherwise.
pub fn plan_output_capture(params: &crate::capture::CaptureParameters, info: &OutputInfo) -> (r:
    Result<Box, Error>)
    ensures
        match r {
            Ok(b) => match params.region {
                Some(reg) => {
                    &&& b == reg
                    &&& reg.x >= info.x && reg.y >= info.y
                    &&& reg.x + reg.width <= info.x + info.width
                    &&& reg.y + reg.height <= info.y + info.height
                },
                None => b == (Box {
                    x: info.x,
                    y: info.y,
                    width: info.width,
                    height: info.height,
                }),
            },
            Err(e) => {
                &&& e is InvalidRegion
                &&& params.region matches Some(reg) && (reg.x < info.x || reg.y < info.y || reg.x
                    + reg.width > info.x + info.width || reg.y + reg.height > info.y + info.height)
            },
        },
{
    match params.region_ref() {
        Some(region) => {
            let output_right: i64 = info.x as i64 + info.width as i64;
            let output_bottom: i64 = info.y as i64 + info.height as i64;
            if region.x() < info.x || region.y() < info.y || region.x() as i64 + region.width()
                as i64 > output_right || region.y() as i64 + region.height() as i64
                > output_bottom {
                return Err(
                    Error::InvalidRegion(
                        "Capture region extends outside output boundaries".to_owned(),
                    ),
                );
            }
            Ok(*region)
        },
        None => Ok(Box::new(info.x, info.y, info.width, info.height)),
    }
}
} // verus!
