//! Tensor shapes and buffers.
//!
//! A `TensorSpec` describes the fixed shape and element type of a model
//! tensor; its byte length is `product(shape) * element size`.

use vstd::prelude::*;
use crate::DetectError;

verus! {

/// A per-dimension and total-element bound: tensors of this service fit in
/// memory with room to spare, and all index arithmetic stays in `usize`.
pub const DIM_LIMIT: usize = 0x2000;

/// The element type of a tensor.
#[derive(Clone, Copy, Debug, PartialEq, Eq, Structural)]
pub enum Dtype {
    /// 8-bit unsigned samples, one byte each.
    U8,
    /// 32-bit floats, four bytes each, stored little-endian.
    F32,
}

/// The byte size of one element of the given type.
pub open spec fn dtype_size_spec(d: Dtype) -> int {
    match d {
        Dtype::U8 => 1,
        Dtype::F32 => 4,
    }
}

/// Returns the byte size of one element.
pub fn dtype_size(d: Dtype) -> (r: usize)
    ensures
        r == dtype_size_spec(d),
{
    match d {
        Dtype::U8 => 1,
        Dtype::F32 => 4,
    }
}

/// The shape and element type of a tensor, as the session reports it.
#[derive(Clone, Debug, PartialEq, Eq)]
pub struct TensorSpec {
    /// Shape dimensions, outermost first.
    pub dims: Vec<usize>,
    pub dtype: Dtype,
}

impl TensorSpec {
    /// A 4-D, batch-1 image tensor shape `[1, height, width, channels]` with
    /// 1 or 3 channels and bounded extents.
    pub open spec fn is_image_shape(self) -> bool {
        &&& self.dims@.len() == 4
        &&& self.dims@[0] == 1
        &&& 1 <= self.dims@[1] <= DIM_LIMIT
        &&& 1 <= self.dims@[2] <= DIM_LIMIT
        &&& (self.dims@[3] == 1 || self.dims@[3] == 3)
    }

    /// The tensor height when the shape is `[1, height, width, channels]`.
    pub open spec fn height(self) -> int {
        self.dims@[1] as int
    }

    /// The tensor width when the shape is `[1, height, width, channels]`.
    pub open spec fn width(self) -> int {
        self.dims@[2] as int
    }

    /// The channel count when the shape is `[1, height, width, channels]`.
    pub open spec fn channels(self) -> int {
        self.dims@[3] as int
    }

    /// The number of elements of an image-shaped tensor.
    pub open spec fn element_count(self) -> int {
        self.height() * self.width() * self.channels()
    }

    /// The byte length of an image-shaped tensor's buffer.
    pub open spec fn byte_len(self) -> int {
        self.element_count() * dtype_size_spec(self.dtype)
    }

    /// Checks whether the shape is a 4-D, batch-1 image shape; the encoder
    /// rejects a spec for which this is false with `ShapeMismatch`.
    pub fn check_image_shape(&self) -> (r: bool)
        ensures
            r == self.is_image_shape(),
    {
        if self.dims.len() != 4 {
            return false;
        }
        let d0 = self.dims[0];
        let d1 = self.dims[1];
        let d2 = self.dims[2];
        let d3 = self.dims[3];
        d0 == 1 && 1 <= d1 && d1 <= DIM_LIMIT && 1 <= d2 && d2 <= DIM_LIMIT && (d3 == 1 || d3 == 3)
    }
}

/// Checks that an encoded input buffer matches the session's input spec; a
/// run must be refused with `TensorSizeMismatch` before touching the engine
/// when it does not.
pub fn validate_run_input(input: &Vec<u8>, spec: &TensorSpec) -> (r: Result<(), DetectError>)
    requires
        spec.is_image_shape(),
    ensures
        r is Ok <==> input@.len() == spec.byte_len(),
        r is Err ==> r->Err_0 == DetectError::TensorSizeMismatch,
{
    let h = spec.dims[1];
    let w = spec.dims[2];
    let c = spec.dims[3];
    let esize = dtype_size(spec.dtype);
    proof {
        assert(1 <= h * w <= 0x4000000 && 1 <= h * w * c <= 0xC000000
               && h * w * c * dtype_size_spec(spec.dtype) <= 0x2000 * 0x2000 * 3 * 4
               && h * w * c * dtype_size_spec(spec.dtype) >= 0) by (nonlinear_arith)
            requires
                1 <= h <= 0x2000,
                1 <= w <= 0x2000,
                1 <= c <= 3,
                1 <= dtype_size_spec(spec.dtype) <= 4,
        ;
    }
    let expect: usize = h * w * c * esize;
    if input.len() == expect {
        Ok(())
    } else {
        Err(DetectError::TensorSizeMismatch)
    }
}

} // verus!
