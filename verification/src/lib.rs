use vstd::prelude::*;

mod buffer;
mod capture;
mod cli;
mod compositor;
mod error;
mod frame;
mod geometry;
mod output;
mod scaling;
mod text;
mod transform;

pub use buffer::checked_buffer_size;
pub use buffer::spec_buffer_bytes;
pub use buffer::blit_capture;
pub use buffer::spec_blitted;
pub use capture::CaptureParameters;
pub use capture::CaptureResult;
pub use capture::MultiOutputCaptureResult;
pub use capture::Output;
pub use cli::CliConfig;
pub use cli::FileType;
pub use cli::parse_scale;
pub use cli::parse_cli_args;
pub use cli::spec_parse_cli;
pub use cli::spec_initial_config;
pub use cli::usage_text;
pub use cli::spec_usage_text;
pub use cli::spec_parse_scale;
pub use cli::spec_pow10;
pub use compositor::CompositePlan;
pub use compositor::CompositeStep;
pub use compositor::plan_composite;
pub use compositor::assemble_composite;
pub use compositor::bounding_region;
pub use compositor::greatest_scale_for_region;
pub use compositor::validate_capture_region;
pub use compositor::plan_output_capture;
pub use compositor::spec_bounds;
pub use compositor::spec_scale_le;
pub use compositor::spec_scale_candidate;
pub use compositor::spec_composited;
pub use compositor::spec_scaled_result;
pub use compositor::spec_inverted;
pub use compositor::spec_zero_canvas;
pub use compositor::step_for_output;
pub use compositor::spec_step_for;
pub use compositor::spec_plan_steps;
pub use compositor::spec_effective_scale;
pub use error::Error;
pub use frame::FrameState;
pub use frame::PixelFormat;
pub use frame::PollStep;
pub use frame::descriptor_poll_step;
pub use frame::ready_poll_step;
pub use frame::frame_buffer_params;
pub use frame::normalize_pixels;
pub use frame::finish_capture;
pub use frame::spec_normalized;
pub use frame::spec_swizzled;
pub use frame::spec_finished;
pub use frame::FLAG_Y_INVERT;
pub use geometry::Box;
pub use geometry::spec_parse_box;
pub use geometry::spec_box_text;
pub use geometry::lemma_box_text_round_trip;
pub use output::OutputInfo;
pub use output::OutputEntry;
pub use output::OutputRegistry;
pub use output::spec_output_record;
pub use scaling::Scale;
pub use scaling::scale_image_integer_fast;
pub use scaling::scale_image_data;
pub use scaling::spec_scaled_dim;
pub use scaling::filter_for;
pub use scaling::ResampleFilter;
pub use scaling::spec_upscaled;
pub use scaling::spec_filter_for;
pub use scaling::spec_resampled;
pub use text::parse_i32_str;
pub use text::find_char;
pub use text::spec_parse_i32;
pub use text::spec_find_char;
pub use text::spec_fmt_int;
pub use text::spec_fmt_nat;
pub use text::format_i32;
pub use text::format_u32;
pub use transform::Transform;
pub use transform::rotate_90;
pub use transform::rotate_180;
pub use transform::rotate_270;
pub use transform::flip_horizontal;
pub use transform::flip_vertical;
pub use transform::apply_image_transform;
pub use transform::apply_output_transform;
pub use transform::spec_transformed;
pub use transform::spec_transformed_width;
pub use transform::spec_transformed_height;
pub use transform::lemma_transform_round_trip;
pub use transform::lemma_rotation_dimension_law;
pub use transform::lemma_flipped_180_is_vertical_flip;
pub use transform::lemma_transformed_len;
pub use transform::spec_byte;
pub use transform::spec_rotate_90;
pub use transform::spec_rotate_180;
pub use transform::spec_rotate_270;
pub use transform::spec_flip_horizontal;
pub use transform::spec_flip_vertical;

verus! {

/// Upper bound on `width * height` for every image or buffer allocation.
pub const MAX_PIXELS: u64 = 134_217_728;

/// Bound on dispatch cycles a frame poll may complete without progress.
pub const MAX_ATTEMPTS: usize = 100;

/// Checks that the compositor offers the globals a session cannot work
/// without: the screencopy manager and shared memory. Fails with an
/// unsupported-protocol error naming the missing global.
pub fn check_required_globals(has_screencopy_manager: bool, has_shm: bool) -> (r: Result<
    (),
    Error,
>)
    ensures
        match r {
            Ok(()) => has_screencopy_manager && has_shm,
            Err(e) => (!has_screencopy_manager || !has_shm) && e is UnsupportedProtocol,
        },
{
    if !has_screencopy_manager {
        return Err(
            Error::UnsupportedProtocol("zwlr_screencopy_manager_v1 not available".to_owned()),
        );
    }
    if !has_shm {
        return Err(Error::UnsupportedProtocol("wl_shm not available".to_owned()));
    }
    Ok(())
}

} // verus!
