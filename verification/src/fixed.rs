//! Fixed-point score arithmetic.
//!
//! Scores, probabilities and thresholds are integers in parts per million:
//! `PPM_ONE` stands for 1.0.  Raw tensor bytes are mapped to real-world
//! values with the model's quantization scale and zero point, and score
//! fields then pass through an explicit activation.

use vstd::prelude::*;

verus! {

/// One whole unit in the fixed-point score scale (parts per million).
pub const PPM_ONE: u32 = 1000000;

/// A magnitude bound that every dequantized value satisfies; downstream
/// geometry and activation arithmetic rely on it to stay within `i64`.
pub const DEQUANT_LIMIT: i64 = 0x4000000000000;

/// Quantization parameters of a tensor: a real value is
/// `scale * (raw - zero_point)`, with the scale itself in parts per million.
#[derive(Clone, Copy, Debug, PartialEq, Eq, Structural)]
pub struct QuantParams {
    pub scale_ppm: u32,
    pub zero_point: i32,
}

impl QuantParams {
    /// For 8-bit unsigned tensors the zero point lies in the raw value range.
    pub open spec fn wf(self) -> bool {
        0 <= self.zero_point <= 255
    }

    /// Identity dequantization for tensors whose bytes already are
    /// fixed-point values: scale 1.0, zero point 0.
    pub fn identity() -> (r: QuantParams)
        ensures
            r.wf(),
            r.scale_ppm == PPM_ONE,
            r.zero_point == 0,
    {
        QuantParams { scale_ppm: PPM_ONE, zero_point: 0 }
    }
}

/// The real-world value of one raw tensor byte, in parts per million.
pub open spec fn dequant_spec(q: QuantParams, raw: u8) -> int {
    (q.scale_ppm as int) * (raw as int - q.zero_point as int)
}

/// Rescales one raw 8-bit tensor value to its real-world fixed-point value.
pub fn dequantize(q: &QuantParams, raw: u8) -> (r: i64)
    requires
        q.wf(),
    ensures
        r == dequant_spec(*q, raw),
        -DEQUANT_LIMIT <= r <= DEQUANT_LIMIT,
{
    let diff: i64 = raw as i64 - q.zero_point as i64;
    proof {
        assert(-255 <= diff <= 255);
        assert((q.scale_ppm as int) * diff <= DEQUANT_LIMIT && -DEQUANT_LIMIT <= (q.scale_ppm as int) * diff) by (nonlinear_arith)
            requires
                -255 <= diff <= 255,
                0 <= q.scale_ppm <= 0xffffffff,
        ;
    }
    q.scale_ppm as i64 * diff
}

/// The activation applied to raw objectness and class-score fields.
#[derive(Clone, Copy, Debug, PartialEq, Eq, Structural)]
pub enum Activation {
    /// The field is already a probability; it is only clamped to `[0, 1]`.
    Identity,
    /// A sigmoid-shaped rational squashing `x ↦ (1 + x/(1+|x|))/2`, evaluated
    /// exactly in fixed point.  It is the documented, deterministic integer
    /// stand-in for the logistic activation of this model family: odd around
    /// `1/2`, strictly inside `[0, 1]`, and `1/2` at zero.
    Sigmoid,
}

/// The clamp of `v` to `[lo, hi]`.
pub open spec fn clampi(v: int, lo: int, hi: int) -> int {
    if v < lo {
        lo
    } else if v > hi {
        hi
    } else {
        v
    }
}

/// What `activate` returns: a probability in parts per million.
pub open spec fn activate_spec(a: Activation, v: int) -> int {
    match a {
        Activation::Identity => clampi(v, 0, PPM_ONE as int),
        Activation::Sigmoid => if v >= 0 {
            (PPM_ONE + (PPM_ONE * v) / (PPM_ONE + v)) / 2
        } else {
            (PPM_ONE - (PPM_ONE * (-v)) / (PPM_ONE + (-v))) / 2
        },
    }
}

/// Applies the configured activation to a dequantized score field.
pub fn activate(a: Activation, v: i64) -> (r: u32)
    requires
        -DEQUANT_LIMIT <= v <= DEQUANT_LIMIT,
    ensures
        r == activate_spec(a, v as int),
        r <= PPM_ONE,
{
    match a {
        Activation::Identity => {
            if v < 0 {
                0
            } else if v > PPM_ONE as i64 {
                PPM_ONE
            } else {
                v as u32
            }
        }
        Activation::Sigmoid => {
            let m: u128 = if v >= 0 { v as u128 } else { (-v) as u128 };
            let num: u128 = PPM_ONE as u128 * m;
            let den: u128 = PPM_ONE as u128 + m;
            let q: u128 = num / den;
            proof {
                assert(num <= (PPM_ONE as int) * den) by (nonlinear_arith)
                    requires
                        num == PPM_ONE as int * m,
                        den == PPM_ONE as int + m,
                        m >= 0,
                ;
                assert(num / den <= PPM_ONE) by (nonlinear_arith)
                    requires
                        num <= (PPM_ONE as int) * den,
                        den >= 1,
                        num >= 0,
                ;
            }
            if v >= 0 {
                ((PPM_ONE as u128 + q) / 2) as u32
            } else {
                ((PPM_ONE as u128 - q) / 2) as u32
            }
        }
    }
}

} // verus!
