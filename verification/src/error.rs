use vstd::prelude::*;

verus! {

/// Every failure the library surfaces to a caller.
#[derive(Debug, Clone, PartialEq, Eq)]
pub enum Error {
    /// Failed to connect to the compositor or to complete an initial round-trip.
    WaylandConnection(String),
    /// A required protocol global is missing.
    UnsupportedProtocol(String),
    /// The output registry is empty after a refresh.
    NoOutputs,
    /// No output matches the caller-supplied name.
    OutputNotFound(String),
    /// Negative origin, non-positive extent, overflow, or a region that does
    /// not intersect any output or exceeds an output's physical rectangle.
    InvalidRegion(String),
    /// A geometry text could not be parsed.
    InvalidGeometry(String),
    /// Shared-memory pool, temporary-file or mapping failure, or a size overflow.
    BufferCreation(String),
    /// Timeout, dispatch failure, mutex poisoning, or a frame that became
    /// ready without delivering a buffer.
    FrameCapture(String),
    /// The compositor reported that the capture failed.
    CaptureFailed,
    /// The resampler input or output does not fit the supported range.
    ScalingFailed(String),
    /// An input/output failure at a file or stream boundary.
    Io(String),
}

} // verus!
