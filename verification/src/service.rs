//! Inference service orchestration.
//!
//! One request is one pipeline run: decode the uploaded bytes into an
//! image, encode it into the session's input tensor, run the engine, decode
//! the output tensor into records, and suppress duplicates.  The engine
//! invocation itself lives outside the library; the two verified halves
//! around it are `prepare_input` and `finish_detection`, and the service
//! must run them with exclusive access to one session, holding the session
//! until `finish_detection` has fully materialised the detections (the
//! engine's output view is only valid until the session's next run).

use vstd::prelude::*;
use crate::DetectError;
use crate::codec::{
    decode_records, encode, encode_spec, records_spec, views_of, FloatNorm, CLASS_LIMIT,
    OUTPUT_LIMIT,
};
use crate::fixed::QuantParams;
use crate::nms::{suppress, suppress_spec, Detection, SuppressConfig};
use crate::raster::{decode_image, rgba_of, RasterView};
use crate::tensor::{TensorSpec, DIM_LIMIT};

verus! {

/// Everything the service fixes at startup for one loaded model: the
/// model's class count, the input normalization, the output tensor's
/// quantization parameters, and the suppression thresholds.
#[derive(Clone, Copy, Debug, PartialEq, Eq, Structural)]
pub struct ServiceConfig {
    pub class_count: usize,
    pub norm: FloatNorm,
    pub quant: QuantParams,
    pub suppress: SuppressConfig,
}

impl ServiceConfig {
    pub open spec fn wf(self) -> bool {
        &&& 1 <= self.class_count <= CLASS_LIMIT
        &&& self.quant.wf()
        &&& self.suppress.wf()
    }
}

/// What one request's detections are, as a function of the raw output
/// tensor alone: decode every record window with the model's quantization,
/// then filter, classify, sort and suppress.
pub open spec fn detections_spec(output: Seq<u8>, cfg: ServiceConfig) -> Seq<Detection> {
    suppress_spec(records_spec(output, cfg.quant, cfg.class_count as int), cfg.suppress)
}

/// The pipeline is deterministic: the final detection list is a function of
/// the output tensor bytes and the fixed configuration alone, so two runs
/// over the same model, image and configuration yield the identical list.
pub proof fn lemma_detections_deterministic(
    out1: Seq<u8>,
    out2: Seq<u8>,
    cfg1: ServiceConfig,
    cfg2: ServiceConfig,
)
    requires
        out1 == out2,
        cfg1 == cfg2,
    ensures
        detections_spec(out1, cfg1) == detections_spec(out2, cfg2),
{
}

/// Decodes an uploaded image and encodes it for the session's input spec.
///
/// The shape is validated first (`ShapeMismatch` when the session's input
/// is not a 4-D batch-1 image tensor).  With a valid shape the call
/// succeeds exactly when the decoder recognises the bytes (`rgba_of` is
/// `Some`) with extents within `DIM_LIMIT` — any other failure is exactly
/// `UnsupportedImageFormat` — and then returns precisely the encoding of
/// the decoded RGBA raster, a buffer of the input spec's byte length.
pub fn prepare_input(image_bytes: &Vec<u8>, input_spec: &TensorSpec, norm: FloatNorm) -> (r:
    Result<Vec<u8>, DetectError>)
    ensures
        !input_spec.is_image_shape() ==> r is Err && r->Err_0 == DetectError::ShapeMismatch,
        input_spec.is_image_shape() ==> (r is Ok <==> (rgba_of(image_bytes@) is Some && {
            let t = rgba_of(image_bytes@)->Some_0;
            1 <= t.0 <= DIM_LIMIT && 1 <= t.1 <= DIM_LIMIT
        })),
        input_spec.is_image_shape() && r is Err ==> r->Err_0
            == DetectError::UnsupportedImageFormat,
        r is Ok ==> {
            let t = rgba_of(image_bytes@)->Some_0;
            r->Ok_0@ == encode_spec(
                (RasterView { width: t.0, height: t.1, channels: 4, data: t.2 }),
                *input_spec,
                norm,
            )
        },
        r is Ok ==> r->Ok_0@.len() == input_spec.byte_len(),
{
    if !input_spec.check_image_shape() {
        return Err(DetectError::ShapeMismatch);
    }
    let img = match decode_image(image_bytes) {
        Ok(img) => img,
        Err(e) => {
            return Err(e);
        },
    };
    encode(&img, input_spec, norm)
}

/// Decodes the engine's output tensor and produces the final detections.
///
/// Fails with `TruncatedOutput` exactly when the output length is not a
/// multiple of the record size `5 + class_count`; otherwise the result is
/// `detections_spec(output, cfg)`: ordered by descending confidence, no two
/// same-class entries overlapping beyond the IoU threshold, and empty when
/// the tensor holds no surviving record.
pub fn finish_detection(output: &Vec<u8>, cfg: &ServiceConfig) -> (r: Result<
    Vec<Detection>,
    DetectError,
>)
    requires
        cfg.wf(),
        output@.len() <= OUTPUT_LIMIT,
    ensures
        r is Ok <==> (output@.len() as int) % (5 + cfg.class_count as int) == 0,
        r is Err ==> r->Err_0 == DetectError::TruncatedOutput,
        r is Ok ==> r->Ok_0@ == detections_spec(output@, *cfg),
        r is Ok ==> r->Ok_0@.len() * (5 + cfg.class_count as int) <= output@.len(),
        r is Ok ==> forall|i: int, j: int|
            0 <= i < j < r->Ok_0@.len() ==> (#[trigger] r->Ok_0@[i]).score_ppm
                >= (#[trigger] r->Ok_0@[j]).score_ppm,
{
    let records = match decode_records(output, cfg.class_count, &cfg.quant) {
        Ok(records) => records,
        Err(e) => {
            return Err(e);
        },
    };
    proof {
        let rspec = records_spec(output@, cfg.quant, cfg.class_count as int);
        assert(views_of(records@) =~= rspec);
    }
    let dets = suppress(&records, &cfg.suppress);
    proof {
        let rs = 5 + cfg.class_count as int;
        let n = output@.len() as int / rs;
        vstd::arithmetic::div_mod::lemma_fundamental_div_mod(output@.len() as int, rs);
        assert(dets@.len() * rs <= n * rs) by (nonlinear_arith)
            requires
                dets@.len() <= n,
                rs > 0,
        ;
        assert(n * rs == rs * n) by (nonlinear_arith);
    }
    Ok(dets)
}

} // verus!
