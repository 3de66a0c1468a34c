use grim_rs::descriptor_poll_step;
use grim_rs::finish_capture;
use grim_rs::frame_buffer_params;
use grim_rs::normalize_pixels;
use grim_rs::ready_poll_step;
use grim_rs::Error;
use grim_rs::FrameState;
use grim_rs::PixelFormat;
use grim_rs::PollStep;
use grim_rs::Transform;
use grim_rs::FLAG_Y_INVERT;
use grim_rs::MAX_ATTEMPTS;

#[test]
fn buffer_event_allocates_the_placeholder() {
    let mut state = FrameState::new();
    state.apply_buffer_event(Some(PixelFormat::Xrgb8888), 4, 2, 16);
    assert_eq!(state.width, 4);
    assert_eq!(state.height, 2);
    assert_eq!(state.format, Some(PixelFormat::Xrgb8888));
    assert!(!state.ready);
    assert_eq!(state.buffer.as_ref().map(|b| b.len()), Some(32));
}

#[test]
fn buffer_event_with_excessive_size_marks_the_frame_failed() {
    let mut state = FrameState::new();
    state.apply_buffer_event(Some(PixelFormat::Xrgb8888), 4000000, 4000000, 16000000);
    assert!(state.ready);
    assert!(state.buffer.is_none());
}

#[test]
fn ready_and_failed_events_mark_the_frame_ready() {
    let mut state = FrameState::new();
    state.apply_flags_event(FLAG_Y_INVERT);
    assert_eq!(state.flags, FLAG_Y_INVERT);
    state.apply_ready_event();
    assert!(state.ready);
    assert!(!state.failed);

    let mut failed = FrameState::new();
    failed.apply_failed_event();
    assert!(failed.ready);
    assert!(failed.failed);
}

#[test]
fn descriptor_poll_dispatches_then_times_out() {
    let state = FrameState::new();
    assert_eq!(descriptor_poll_step(&state, 0), PollStep::Dispatch);
    match descriptor_poll_step(&state, MAX_ATTEMPTS) {
        PollStep::Fail(Error::FrameCapture(m)) => assert!(m.contains("Timeout")),
        other => panic!("expected FrameCapture timeout, got {other:?}"),
    }
}

#[test]
fn descriptor_poll_proceeds_once_the_buffer_arrived() {
    let mut state = FrameState::new();
    state.apply_buffer_event(Some(PixelFormat::Argb8888), 2, 2, 8);
    assert_eq!(descriptor_poll_step(&state, 0), PollStep::Proceed);
}

#[test]
fn poll_fails_when_the_frame_is_ready_without_a_buffer() {
    // A buffer descriptor whose size check fails leaves the frame ready
    // with no buffer; that is a frame-capture error, not a compositor
    // failure.
    let mut state = FrameState::new();
    state.apply_buffer_event(Some(PixelFormat::Xrgb8888), 4000000, 4000000, 16000000);
    assert!(state.ready && state.buffer.is_none() && !state.failed);
    match descriptor_poll_step(&state, 0) {
        PollStep::Fail(Error::FrameCapture(m)) => {
            assert!(m.contains("ready but buffer was not received"));
        },
        other => panic!("expected FrameCapture, got {other:?}"),
    }
    match ready_poll_step(&state, 0) {
        PollStep::Fail(Error::FrameCapture(_)) => {},
        other => panic!("expected FrameCapture, got {other:?}"),
    }
}

#[test]
fn compositor_reported_failure_surfaces_capture_failed() {
    // A Failed event before the copy: both polls fail with CaptureFailed.
    let mut state = FrameState::new();
    state.apply_failed_event();
    match descriptor_poll_step(&state, 0) {
        PollStep::Fail(Error::CaptureFailed) => {},
        other => panic!("expected CaptureFailed, got {other:?}"),
    }
    match ready_poll_step(&state, 0) {
        PollStep::Fail(Error::CaptureFailed) => {},
        other => panic!("expected CaptureFailed, got {other:?}"),
    }

    // A Failed event after the copy was issued: the buffer is present, yet
    // the frame must not be returned as success.
    let mut attached = FrameState::new();
    attached.apply_buffer_event(Some(PixelFormat::Argb8888), 2, 2, 8);
    attached.apply_failed_event();
    assert!(attached.buffer.is_some());
    match ready_poll_step(&attached, 0) {
        PollStep::Fail(Error::CaptureFailed) => {},
        other => panic!("expected CaptureFailed, got {other:?}"),
    }
}

#[test]
fn ready_poll_proceeds_once_ready_with_buffer() {
    let mut state = FrameState::new();
    state.apply_buffer_event(Some(PixelFormat::Argb8888), 2, 2, 8);
    assert_eq!(ready_poll_step(&state, 5), PollStep::Dispatch);
    state.apply_ready_event();
    assert_eq!(ready_poll_step(&state, 5), PollStep::Proceed);
}

#[test]
fn frame_buffer_params_derive_the_packed_stride() {
    let mut state = FrameState::new();
    state.apply_buffer_event(Some(PixelFormat::Argb8888), 640, 480, 2560);
    let (w, h, stride, size, format) = frame_buffer_params(&state).unwrap();
    assert_eq!((w, h), (640, 480));
    assert_eq!(stride, 2560);
    assert_eq!(size, 2560 * 480);
    assert_eq!(format, PixelFormat::Argb8888);
}

#[test]
fn frame_buffer_params_fail_on_zero_dimensions() {
    let state = FrameState::new();
    match frame_buffer_params(&state) {
        Err(Error::CaptureFailed) => {},
        other => panic!("expected CaptureFailed, got {other:?}"),
    }
}

#[test]
fn frame_buffer_params_default_the_format() {
    let mut state = FrameState::new();
    state.apply_buffer_event(None, 2, 2, 8);
    let (_, _, _, _, format) = frame_buffer_params(&state).unwrap();
    assert_eq!(format, PixelFormat::Xrgb8888);
}

#[test]
fn normalize_swizzles_the_x_channel_format() {
    let mut data = vec![1u8, 2, 3, 4, 5, 6, 7, 8];
    normalize_pixels(&mut data, PixelFormat::Xrgb8888);
    assert_eq!(data, vec![3, 2, 1, 255, 7, 6, 5, 255]);

    let mut untouched = vec![1u8, 2, 3, 4];
    normalize_pixels(&mut untouched, PixelFormat::Argb8888);
    assert_eq!(untouched, vec![1, 2, 3, 4]);

    let mut unknown = vec![1u8, 2, 3, 4];
    normalize_pixels(&mut unknown, PixelFormat::Unknown(99));
    assert_eq!(unknown, vec![1, 2, 3, 4]);
}

#[test]
fn y_inverted_gradient_comes_back_mirrored() {
    // A vertical gradient delivered with the Y-invert flag set yields the
    // vertically mirrored gradient.
    let mut data = Vec::new();
    for row in 0..4u8 {
        for _ in 0..2 {
            data.extend_from_slice(&[row * 10, row * 10, row * 10, 255]);
        }
    }
    let result = finish_capture(data, 2, 4, PixelFormat::Argb8888, Transform::Normal,
        FLAG_Y_INVERT);
    assert_eq!((result.width, result.height), (2, 4));
    for row in 0..4u8 {
        let expected = (3 - row) * 10;
        for col in 0..2usize {
            let i = (row as usize * 2 + col) * 4;
            assert_eq!(result.data[i], expected, "row {row}");
        }
    }
}

#[test]
fn finish_capture_applies_transform_before_the_flip() {
    // One red pixel in the top-left of a 2x2 image, rotated 90 degrees and
    // then Y-inverted: the transform moves it to the top-right, the flip
    // moves it to the bottom-right.
    let mut data = vec![0u8; 16];
    data[0] = 255;
    data[3] = 255;
    let result = finish_capture(data, 2, 2, PixelFormat::Argb8888, Transform::R90, FLAG_Y_INVERT);
    assert_eq!((result.width, result.height), (2, 2));
    let bottom_right = (1 * 2 + 1) * 4;
    assert_eq!(result.data[bottom_right], 255);
}

#[test]
fn finish_capture_swizzles_the_x_channel_wire_order() {
    let data = vec![10u8, 20, 30, 40];
    let result = finish_capture(data, 1, 1, PixelFormat::Xrgb8888, Transform::Normal, 0);
    assert_eq!(result.data, vec![30, 20, 10, 255]);
}

#[test]
fn frame_buffer_params_reject_stride_overflow() {
    let state = FrameState {
        buffer: None,
        width: u32::MAX,
        height: 1,
        format: None,
        ready: false,
        failed: false,
        flags: 0,
    };
    match frame_buffer_params(&state) {
        Err(Error::BufferCreation(m)) => assert!(m.contains("overflow")),
        other => panic!("expected BufferCreation, got {other:?}"),
    }
}
