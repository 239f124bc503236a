//! A verified object-detection inference pipeline.
//!
//! The library turns a client-supplied image into the exact input tensor a
//! fixed-topology detection model expects, interprets the model's flat output
//! tensor as typed detection records, and suppresses duplicate detections.
//! All scores and thresholds are fixed-point values in parts per million, so
//! every stage is exact integer arithmetic with a proved contract.

use vstd::prelude::*;

pub mod fixed;
pub mod geometry;
pub mod tensor;
pub mod raster;
pub mod codec;
pub mod nms;
pub mod service;

verus! {

/// The error taxonomy of the pipeline.  Every kind is request-scoped and
/// non-retriable; the transport layer maps each to a status and error body.
#[derive(Clone, Copy, Debug, PartialEq, Eq, Structural)]
pub enum DetectError {
    /// The image container format was not recognised by the decoder.
    UnsupportedImageFormat,
    /// The image's channel count is not one the codec accepts.
    UnsupportedChannelLayout,
    /// The target tensor spec is not a 4-D, batch-1 shape with 1 or 3 channels.
    ShapeMismatch,
    /// An input buffer's byte length does not match the session's input spec.
    TensorSizeMismatch,
    /// The output tensor's length is not an exact multiple of the record size.
    TruncatedOutput,
    /// The engine could not open or validate the model file.
    ModelLoadError,
    /// The engine reported a runtime failure during an invocation.
    InferenceExecutionError,
}

} // verus!
