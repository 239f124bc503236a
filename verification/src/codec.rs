//! Tensor codec: raw output tensors to typed detection records, and images
//! to input tensors.
//!
//! The output tensor of the model is a flat byte buffer of fixed-size
//! windows `[centerX, centerY, width, height, objectness, class_0 ..
//! class_{C-1}]`.  For 8-bit quantized tensors every byte is rescaled with
//! the tensor's quantization scale and zero point; nothing is read as an
//! identity value.

use vstd::prelude::*;
use crate::DetectError;
use crate::fixed::{QuantParams, dequant_spec, dequantize, DEQUANT_LIMIT};
use crate::tensor::{Dtype, TensorSpec, dtype_size_spec};
use crate::raster::{Image, RasterView};

verus! {

/// The largest class count the service accepts; record windows then have at
/// most `5 + 4096` bytes and all index arithmetic stays small.
pub const CLASS_LIMIT: usize = 0x1000;

/// The largest output tensor byte length the service accepts.
pub const OUTPUT_LIMIT: usize = 0x1000000;

/// One decoded window of the output tensor, all fields dequantized to
/// fixed-point parts-per-million values, before activation.
#[derive(Clone, Debug, PartialEq, Eq)]
pub struct RawRecord {
    pub center_x: i64,
    pub center_y: i64,
    pub width: i64,
    pub height: i64,
    pub objectness: i64,
    pub class_scores: Vec<i64>,
}

/// The mathematical content of a `RawRecord`.
pub struct RecordView {
    pub center_x: int,
    pub center_y: int,
    pub width: int,
    pub height: int,
    pub objectness: int,
    pub class_scores: Seq<int>,
}

impl View for RawRecord {
    type V = RecordView;

    open spec fn view(&self) -> RecordView {
        RecordView {
            center_x: self.center_x as int,
            center_y: self.center_y as int,
            width: self.width as int,
            height: self.height as int,
            objectness: self.objectness as int,
            class_scores: self.class_scores@.map(|_k: int, v: i64| v as int),
        }
    }
}

impl RecordView {
    /// Every field of a decoded record is a dequantized value, so its
    /// magnitude is bounded.
    pub open spec fn bounded(self) -> bool {
        &&& -DEQUANT_LIMIT <= self.center_x <= DEQUANT_LIMIT
        &&& -DEQUANT_LIMIT <= self.center_y <= DEQUANT_LIMIT
        &&& -DEQUANT_LIMIT <= self.width <= DEQUANT_LIMIT
        &&& -DEQUANT_LIMIT <= self.height <= DEQUANT_LIMIT
        &&& -DEQUANT_LIMIT <= self.objectness <= DEQUANT_LIMIT
        &&& forall|k: int|
            0 <= k < self.class_scores.len() ==> -DEQUANT_LIMIT <= #[trigger] self.class_scores[k]
                <= DEQUANT_LIMIT
    }
}

/// The record view decoded from window `r` of the output tensor.
pub open spec fn record_at(bytes: Seq<u8>, q: QuantParams, class_count: int, r: int) -> RecordView {
    let base = r * (5 + class_count);
    RecordView {
        center_x: dequant_spec(q, bytes[base + 0]),
        center_y: dequant_spec(q, bytes[base + 1]),
        width: dequant_spec(q, bytes[base + 2]),
        height: dequant_spec(q, bytes[base + 3]),
        objectness: dequant_spec(q, bytes[base + 4]),
        class_scores: Seq::new(class_count as nat, |k: int| dequant_spec(q, bytes[base + 5 + k])),
    }
}

/// The views of a sequence of records.
pub open spec fn views_of(recs: Seq<RawRecord>) -> Seq<RecordView> {
    recs.map(|_i: int, r: RawRecord| r@)
}

/// The sequence of record views of a whole output tensor whose length is an
/// exact multiple of the window size.
pub open spec fn records_spec(bytes: Seq<u8>, q: QuantParams, class_count: int) -> Seq<RecordView> {
    Seq::new((bytes.len() as int / (5 + class_count)) as nat, |r: int| record_at(bytes, q, class_count, r))
}

/// Decodes a raw output tensor into detection records.
///
/// The buffer must split exactly into windows of `5 + class_count` bytes;
/// otherwise the tensor was truncated and `TruncatedOutput` is returned.
/// Every byte is rescaled with the tensor's quantization parameters.
pub fn decode_records(bytes: &Vec<u8>, class_count: usize, q: &QuantParams) -> (r: Result<
    Vec<RawRecord>,
    DetectError,
>)
    requires
        q.wf(),
        1 <= class_count <= CLASS_LIMIT,
        bytes@.len() <= OUTPUT_LIMIT,
    ensures
        r is Ok <==> (bytes@.len() as int) % (5 + class_count as int) == 0,
        r is Err ==> r->Err_0 == DetectError::TruncatedOutput,
        r is Ok ==> {
            let out = r->Ok_0;
            &&& out@.len() == bytes@.len() as int / (5 + class_count as int)
            &&& forall|i: int|
                0 <= i < out@.len() ==> #[trigger] out@[i]@ == records_spec(
                    bytes@,
                    *q,
                    class_count as int,
                )[i]
            &&& forall|i: int| 0 <= i < out@.len() ==> (#[trigger] out@[i]@).bounded()
            &&& forall|i: int|
                0 <= i < out@.len() ==> (#[trigger] out@[i]@).class_scores.len()
                    == class_count as int
        },
{
    let rs: usize = 5 + class_count;
    if bytes.len() % rs != 0 {
        return Err(DetectError::TruncatedOutput);
    }
    let n: usize = bytes.len() / rs;
    proof {
        vstd::arithmetic::div_mod::lemma_fundamental_div_mod(bytes@.len() as int, rs as int);
        assert(bytes@.len() as int == rs as int * (bytes@.len() as int / rs as int));
        assert(n * rs == rs * n) by (nonlinear_arith);
        assert(n * rs == bytes@.len());
    }
    let mut out: Vec<RawRecord> = Vec::new();
    let mut base: usize = 0;
    let mut r: usize = 0;
    while r < n
        invariant
            r <= n,
            rs == 5 + class_count,
            1 <= class_count <= CLASS_LIMIT,
            q.wf(),
            bytes@.len() <= OUTPUT_LIMIT,
            n == bytes@.len() as int / rs as int,
            n * rs <= bytes@.len(),
            base == r * rs,
            out@.len() == r,
            forall|i: int|
                0 <= i < r ==> #[trigger] out@[i]@ == record_at(bytes@, *q, class_count as int, i),
            forall|i: int| 0 <= i < r ==> (#[trigger] out@[i]@).bounded(),
            forall|i: int|
                0 <= i < r ==> (#[trigger] out@[i]@).class_scores.len() == class_count as int,
        decreases n - r,
    {
        proof {
            assert((r + 1) * rs <= n * rs && r * rs + rs == (r + 1) * rs && 0 <= r * rs)
                by (nonlinear_arith)
                requires
                    r < n,
                    0 < rs,
            ;
        }
        let cx = dequantize(q, bytes[base + 0]);
        let cy = dequantize(q, bytes[base + 1]);
        let w = dequantize(q, bytes[base + 2]);
        let h = dequantize(q, bytes[base + 3]);
        let obj = dequantize(q, bytes[base + 4]);
        let mut scores: Vec<i64> = Vec::new();
        let mut k: usize = 0;
        while k < class_count
            invariant
                k <= class_count,
                rs == 5 + class_count,
                base + rs <= bytes@.len(),
                bytes@.len() <= OUTPUT_LIMIT,
                q.wf(),
                scores@.len() == k,
                forall|j: int|
                    0 <= j < k ==> #[trigger] scores@[j] == dequant_spec(
                        *q,
                        bytes@[base + 5 + j],
                    ),
                forall|j: int|
                    0 <= j < k ==> -DEQUANT_LIMIT <= #[trigger] scores@[j] <= DEQUANT_LIMIT,
            decreases class_count - k,
        {
            let s = dequantize(q, bytes[base + 5 + k]);
            scores.push(s);
            k = k + 1;
        }
        let rec = RawRecord {
            center_x: cx,
            center_y: cy,
            width: w,
            height: h,
            objectness: obj,
            class_scores: scores,
        };
        proof {
            assert(rec@.class_scores =~= record_at(bytes@, *q, class_count as int, r as int)
                .class_scores);
            assert(rec@ == record_at(bytes@, *q, class_count as int, r as int));
        }
        out.push(rec);
        base = base + rs;
        r = r + 1;
    }
    proof {
        assert(records_spec(bytes@, *q, class_count as int).len() == n);
    }
    Ok(out)
}

/// The normalization a float input tensor expects.  Both map a sample `n`
/// to an exactly representable dyadic value, so the encoding is
/// bit-deterministic: `ZeroToOne` stores `n / 256` (range `[0, 255/256]`),
/// `PlusMinusOne` stores `(n - 128) / 128` (range `[-1, 127/128]`).
#[derive(Clone, Copy, Debug, PartialEq, Eq, Structural)]
pub enum FloatNorm {
    ZeroToOne,
    PlusMinusOne,
}

/// The normalized value of sample `n`, in units of `1/256`.
pub open spec fn norm_val(norm: FloatNorm, n: int) -> int {
    match norm {
        FloatNorm::ZeroToOne => n,
        FloatNorm::PlusMinusOne => 2 * n - 256,
    }
}

/// The floor of the base-2 logarithm.
pub open spec fn floor_log2_spec(a: int) -> int
    decreases a,
{
    if a <= 1 {
        0
    } else {
        1 + floor_log2_spec(a / 2)
    }
}

proof fn lemma_floor_log2(a: int, p: nat)
    requires
        vstd::arithmetic::power2::pow2(p) <= a < vstd::arithmetic::power2::pow2(p + 1),
    ensures
        floor_log2_spec(a) == p,
    decreases p,
{
    vstd::arithmetic::power2::lemma_pow2_unfold(p + 1);
    if p == 0 {
        vstd::arithmetic::power2::lemma2_to64();
    } else {
        vstd::arithmetic::power2::lemma_pow2_unfold(p);
        vstd::arithmetic::power2::lemma_pow2_pos((p - 1) as nat);
        lemma_floor_log2(a / 2, (p - 1) as nat);
    }
}

/// The IEEE-754 single-precision bit pattern of the value `v / 256`, for
/// `-256 <= v <= 256`: sign bit, biased exponent of `v * 2^-8`, and the
/// 23-bit mantissa.  Every such value is exactly representable, so no
/// rounding is involved.
pub open spec fn f32_bits_q8_spec(v: int) -> int {
    if v == 0 {
        0
    } else {
        let s: int = if v < 0 {
            0x80000000
        } else {
            0
        };
        let a: int = if v < 0 {
            -v
        } else {
            v
        };
        let p = floor_log2_spec(a);
        s + (119 + p) * 0x800000 + (a * vstd::arithmetic::power2::pow2((23 - p) as nat) - 0x800000)
    }
}

/// The four little-endian bytes of a 32-bit pattern.
pub open spec fn le_bytes32(bits: int) -> Seq<u8> {
    seq![
        (bits % 256) as u8,
        ((bits / 256) % 256) as u8,
        ((bits / 0x10000) % 256) as u8,
        ((bits / 0x1000000) % 256) as u8,
    ]
}

/// Returns `pow2(e)` for small exponents.
fn pow2_u32(e: u32) -> (r: u32)
    requires
        e <= 31,
    ensures
        r == vstd::arithmetic::power2::pow2(e as nat),
{
    proof {
        vstd::arithmetic::power2::lemma2_to64();
    }
    let mut r: u32 = 1;
    let mut i: u32 = 0;
    while i < e
        invariant
            i <= e <= 31,
            r == vstd::arithmetic::power2::pow2(i as nat),
        decreases e - i,
    {
        proof {
            vstd::arithmetic::power2::lemma_pow2_unfold((i + 1) as nat);
            vstd::arithmetic::power2::lemma_pow2_strictly_increases(i as nat, 31);
            vstd::arithmetic::power2::lemma2_to64();
        }
        r = r * 2;
        i = i + 1;
    }
    r
}

/// Returns the position of the highest set bit of `a`.
fn floor_log2_u32(a: u32) -> (p: u32)
    requires
        1 <= a <= 256,
    ensures
        p == floor_log2_spec(a as int),
        p <= 8,
        vstd::arithmetic::power2::pow2(p as nat) <= a < vstd::arithmetic::power2::pow2(
            (p + 1) as nat,
        ),
{
    let p: u32 = if a >= 256 {
        8
    } else if a >= 128 {
        7
    } else if a >= 64 {
        6
    } else if a >= 32 {
        5
    } else if a >= 16 {
        4
    } else if a >= 8 {
        3
    } else if a >= 4 {
        2
    } else if a >= 2 {
        1
    } else {
        0
    };
    proof {
        vstd::arithmetic::power2::lemma2_to64();
        lemma_floor_log2(a as int, p as nat);
    }
    p
}

/// Computes the IEEE-754 single-precision bit pattern of `v / 256`.
fn f32_bits_q8(v: i32) -> (bits: u32)
    requires
        -256 <= v <= 256,
    ensures
        bits == f32_bits_q8_spec(v as int),
{
    if v == 0 {
        return 0;
    }
    let s: u32 = if v < 0 {
        0x80000000
    } else {
        0
    };
    let a: u32 = if v < 0 {
        (-v) as u32
    } else {
        v as u32
    };
    let p = floor_log2_u32(a);
    let scale = pow2_u32(23 - p);
    proof {
        let pn: nat = p as nat;
        let qn: nat = (23 - p) as nat;
        vstd::arithmetic::power2::lemma_pow2_adds(pn + 1, qn);
        vstd::arithmetic::power2::lemma_pow2_adds(pn, qn);
        vstd::arithmetic::power2::lemma2_to64();
        let lo = vstd::arithmetic::power2::pow2(pn) as int;
        let hi = vstd::arithmetic::power2::pow2((pn + 1) as nat) as int;
        let sc = scale as int;
        assert(lo * sc <= a as int * sc < hi * sc) by (nonlinear_arith)
            requires
                lo <= a < hi,
                sc > 0,
        ;
        assert(hi * sc == vstd::arithmetic::power2::pow2((pn + 1 + qn) as nat));
        assert(lo * sc == vstd::arithmetic::power2::pow2((pn + qn) as nat));
        assert(pn + 1 + qn == 24 && pn + qn == 23);
        assert(vstd::arithmetic::power2::pow2(24) == 0x1000000);
        assert(vstd::arithmetic::power2::pow2(23) == 0x800000);
    }
    let man: u32 = a * scale - 0x800000;
    s + (119 + p) * 0x800000 + man
}

/// A sequence of one sample's encoded bytes: the raw sample for 8-bit
/// tensors, or the four little-endian bytes of its normalized float.
pub open spec fn element_bytes(d: Dtype, norm: FloatNorm, n: int) -> Seq<u8> {
    match d {
        Dtype::U8 => seq![n as u8],
        Dtype::F32 => le_bytes32(f32_bits_q8_spec(norm_val(norm, n))),
    }
}

/// Appends one encoded sample to the buffer.
fn push_element(buf: &mut Vec<u8>, d: Dtype, norm: FloatNorm, n: u8)
    ensures
        final(buf)@ == old(buf)@ + element_bytes(d, norm, n as int),
{
    match d {
        Dtype::U8 => {
            buf.push(n);
            proof {
                assert(buf@ =~= old(buf)@ + element_bytes(d, norm, n as int));
            }
        }
        Dtype::F32 => {
            let v: i32 = match norm {
                FloatNorm::ZeroToOne => n as i32,
                FloatNorm::PlusMinusOne => 2 * (n as i32) - 256,
            };
            let bits = f32_bits_q8(v);
            buf.push((bits % 256) as u8);
            buf.push(((bits / 256) % 256) as u8);
            buf.push(((bits / 0x10000) % 256) as u8);
            buf.push(((bits / 0x1000000) % 256) as u8);
            proof {
                assert(buf@ =~= old(buf)@ + element_bytes(d, norm, n as int));
            }
        }
    }
}

/// The nearest-neighbor source coordinate for output index `o`: the source
/// extent is mapped onto the output extent by `o * src / out`, rounded down.
pub open spec fn src_coord(o: int, out_extent: int, src_extent: int) -> int {
    o * src_extent / out_extent
}

/// Maps an output pixel coordinate to its nearest source coordinate.
fn scale_index(o: usize, oe: usize, se: usize) -> (r: usize)
    requires
        o < oe,
        1 <= oe <= 0x2000,
        1 <= se <= 0x2000,
    ensures
        r == src_coord(o as int, oe as int, se as int),
        r < se,
{
    proof {
        assert(0 <= o * se && o * se < oe * se && o * se <= 0x4000000) by (nonlinear_arith)
            requires
                o < oe <= 0x2000,
                1 <= se <= 0x2000,
        ;
        vstd::arithmetic::div_mod::lemma_multiply_divide_lt((o * se) as int, oe as int, se as int);
        vstd::arithmetic::div_mod::lemma_div_pos_is_pos((o * se) as int, oe as int);
    }
    o * se / oe
}

/// The Rec.601 luminance of an RGB pixel: `(299 R + 587 G + 114 B) / 1000`,
/// the fixed, documented grayscale reduction of this codec.
pub open spec fn luma(r: int, g: int, b: int) -> int {
    (299 * r + 587 * g + 114 * b) / 1000
}

/// Computes the Rec.601 luminance of an RGB pixel.
fn luma_u8(r: u8, g: u8, b: u8) -> (y: u8)
    ensures
        y as int == luma(r as int, g as int, b as int),
{
    let sum: u32 = 299 * r as u32 + 587 * g as u32 + 114 * b as u32;
    proof {
        vstd::arithmetic::div_mod::lemma_div_is_ordered(sum as int, 255000, 1000);
        vstd::arithmetic::div_mod::lemma_div_multiples_vanish(255, 1000);
        vstd::arithmetic::div_mod::lemma_div_pos_is_pos(sum as int, 1000);
    }
    (sum / 1000) as u8
}

/// The sample written for target channel `c` at source pixel `(sx, sy)`:
/// a grayscale source fills every target channel; an RGB or RGBA source is
/// reduced to luminance for a 1-channel target, and hands over its RGB
/// channels (the alpha channel is dropped) for a 3-channel target.
pub open spec fn reduced_sample(img: RasterView, sx: int, sy: int, tc: int, c: int) -> int {
    if tc == 1 {
        if img.channels == 1 {
            img.sample(sx, sy, 0) as int
        } else {
            luma(
                img.sample(sx, sy, 0) as int,
                img.sample(sx, sy, 1) as int,
                img.sample(sx, sy, 2) as int,
            )
        }
    } else {
        if img.channels == 1 {
            img.sample(sx, sy, 0) as int
        } else {
            img.sample(sx, sy, c) as int
        }
    }
}

/// Reads one reduced sample.
fn sample_reduced(img: &Image, sx: usize, sy: usize, tc: usize, c: usize) -> (v: u8)
    requires
        img.wf(),
        img.channels != 2,
        sx < img.width,
        sy < img.height,
        tc == 1 || tc == 3,
        c < tc,
    ensures
        v as int == reduced_sample(img@, sx as int, sy as int, tc as int, c as int),
{
    if tc == 1 {
        if img.channels == 1 {
            img.sample_at(sx, sy, 0)
        } else {
            luma_u8(
                img.sample_at(sx, sy, 0),
                img.sample_at(sx, sy, 1),
                img.sample_at(sx, sy, 2),
            )
        }
    } else {
        if img.channels == 1 {
            img.sample_at(sx, sy, 0)
        } else {
            img.sample_at(sx, sy, c)
        }
    }
}

/// The sample value at flat element index `s` of the encoded tensor, in
/// row-major, channel-interleaved order.
pub open spec fn enc_sample(img: RasterView, th: int, tw: int, tc: int, s: int) -> int {
    let oc = s % tc;
    let ox = (s / tc) % tw;
    let oy = s / (tc * tw);
    reduced_sample(
        img,
        src_coord(ox, tw, img.width),
        src_coord(oy, th, img.height),
        tc,
        oc,
    )
}

/// The first `k` encoded elements of the input tensor.
pub open spec fn enc_prefix(img: RasterView, ts: TensorSpec, norm: FloatNorm, k: int) -> Seq<u8>
    decreases k,
{
    if k <= 0 {
        Seq::empty()
    } else {
        enc_prefix(img, ts, norm, k - 1) + element_bytes(
            ts.dtype,
            norm,
            enc_sample(img, ts.height(), ts.width(), ts.channels(), k - 1),
        )
    }
}

/// The whole encoded input tensor.
pub open spec fn encode_spec(img: RasterView, ts: TensorSpec, norm: FloatNorm) -> Seq<u8> {
    enc_prefix(img, ts, norm, ts.element_count())
}

proof fn lemma_enc_prefix_len(img: RasterView, ts: TensorSpec, norm: FloatNorm, k: int)
    requires
        k >= 0,
    ensures
        enc_prefix(img, ts, norm, k).len() == k * dtype_size_spec(ts.dtype),
    decreases k,
{
    if k > 0 {
        lemma_enc_prefix_len(img, ts, norm, k - 1);
        assert((k - 1) * dtype_size_spec(ts.dtype) + dtype_size_spec(ts.dtype) == k
            * dtype_size_spec(ts.dtype)) by (nonlinear_arith);
    }
}

/// Encodes an image into the model's input tensor.
///
/// The target must be a 4-D, batch-1 image shape with 1 or 3 channels
/// (otherwise `ShapeMismatch`); a 2-channel image has no defined reduction
/// and is refused with `UnsupportedChannelLayout`.  The image is resized by
/// nearest neighbor, reduced to the target channel count, and packed
/// row-major and channel-interleaved; the returned buffer always holds
/// exactly `product(shape) * dtype size` bytes.
pub fn encode(img: &Image, ts: &TensorSpec, norm: FloatNorm) -> (r: Result<Vec<u8>, DetectError>)
    requires
        img.wf(),
    ensures
        r is Ok <==> (ts.is_image_shape() && img.channels != 2),
        !ts.is_image_shape() ==> r is Err && r->Err_0 == DetectError::ShapeMismatch,
        ts.is_image_shape() && img.channels == 2 ==> r is Err && r->Err_0
            == DetectError::UnsupportedChannelLayout,
        r is Ok ==> r->Ok_0@ == encode_spec(img@, *ts, norm),
        r is Ok ==> r->Ok_0@.len() == ts.byte_len(),
{
    if !ts.check_image_shape() {
        return Err(DetectError::ShapeMismatch);
    }
    if img.channels == 2 {
        return Err(DetectError::UnsupportedChannelLayout);
    }
    let th = ts.dims[1];
    let tw = ts.dims[2];
    let tc = ts.dims[3];
    proof {
        assert(1 <= th * tw <= 0x4000000 && 1 <= th * tw * tc <= 0xC000000) by (nonlinear_arith)
            requires
                1 <= th <= 0x2000,
                1 <= tw <= 0x2000,
                1 <= tc <= 3,
        ;
    }
    let total: usize = th * tw * tc;
    let mut buf: Vec<u8> = Vec::new();
    let mut s: usize = 0;
    while s < total
        invariant
            th == ts.height(),
            tw == ts.width(),
            tc == ts.channels(),
            1 <= th <= 0x2000,
            1 <= tw <= 0x2000,
            tc == 1 || tc == 3,
            total == th * tw * tc,
            total <= 0xC000000,
            s <= total,
            img.wf(),
            img.channels != 2,
            buf@ == enc_prefix(img@, *ts, norm, s as int),
        decreases total - s,
    {
        let oc: usize = s % tc;
        let rem: usize = s / tc;
        let ox: usize = rem % tw;
        let oy: usize = rem / tw;
        proof {
            vstd::arithmetic::div_mod::lemma_mod_division_less_than_divisor(s as int, tc as int);
            vstd::arithmetic::div_mod::lemma_mod_division_less_than_divisor(rem as int, tw as int);
            vstd::arithmetic::div_mod::lemma_div_pos_is_pos(s as int, tc as int);
            vstd::arithmetic::div_mod::lemma_div_pos_is_pos(rem as int, tw as int);
            assert(s < tc * (th * tw)) by (nonlinear_arith)
                requires
                    s < total,
                    total == th * tw * tc,
            ;
            vstd::arithmetic::div_mod::lemma_multiply_divide_lt(
                s as int,
                tc as int,
                (th * tw) as int,
            );
            assert(rem < tw * th) by (nonlinear_arith)
                requires
                    rem < th * tw,
            ;
            vstd::arithmetic::div_mod::lemma_multiply_divide_lt(rem as int, tw as int, th as int);
            vstd::arithmetic::div_mod::lemma_div_denominator(s as int, tc as int, tw as int);
            assert((tc * tw) as int == tc as int * tw as int);
        }
        let sx = scale_index(ox, tw, img.width);
        let sy = scale_index(oy, th, img.height);
        let v = sample_reduced(img, sx, sy, tc, oc);
        proof {
            assert(v as int == enc_sample(img@, th as int, tw as int, tc as int, s as int));
        }
        push_element(&mut buf, ts.dtype, norm, v);
        s = s + 1;
    }
    proof {
        lemma_enc_prefix_len(img@, *ts, norm, total as int);
        assert(total == ts.element_count());
    }
    Ok(buf)
}

} // verus!
