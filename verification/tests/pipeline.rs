//! End-to-end and suppression-stage behaviour.

use objdetect::codec::{FloatNorm, RawRecord};
use objdetect::fixed::{activate, dequantize, Activation, QuantParams, PPM_ONE};
use objdetect::geometry::Rect;
use objdetect::nms::{suppress, CoordMode, SuppressConfig};
use objdetect::service::{finish_detection, ServiceConfig};
use objdetect::DetectError;

fn min_max_record(min_x: i64, min_y: i64, max_x: i64, max_y: i64, obj: i64, scores: Vec<i64>) -> RawRecord {
    RawRecord {
        center_x: min_x,
        center_y: min_y,
        width: max_x,
        height: max_y,
        objectness: obj,
        class_scores: scores,
    }
}

fn test_config() -> SuppressConfig {
    SuppressConfig {
        objectness_ppm: 0,
        class_score_ppm: 0,
        iou_ppm: 500_000,
        coord: CoordMode::MinMax,
        activation: Activation::Identity,
        extent_x: 1_000,
        extent_y: 1_000,
    }
}

#[test]
fn overlapping_same_class_suppressed() {
    // Two boxes of one class with IoU exactly 0.9 (9000 / 10000) and
    // confidences 0.9 and 0.6 under an IoU threshold of 0.5: only the
    // higher-confidence box survives.
    let a = min_max_record(0, 0, 100, 100, PPM_ONE as i64, vec![900_000]);
    let b = min_max_record(0, 0, 100, 90, PPM_ONE as i64, vec![600_000]);
    let out = suppress(&vec![a, b], &test_config());
    assert_eq!(out.len(), 1);
    assert_eq!(out[0].score_ppm, 900_000);
    assert_eq!(out[0].class_id, 0);
    assert_eq!(
        out[0].rect,
        Rect { min_x: 0, min_y: 0, max_x: 100, max_y: 100 }
    );
}

#[test]
fn suppression_is_idempotent_on_survivors() {
    let a = min_max_record(0, 0, 100, 100, PPM_ONE as i64, vec![900_000]);
    let b = min_max_record(0, 0, 100, 90, PPM_ONE as i64, vec![600_000]);
    let once = suppress(&vec![a, b], &test_config());
    // Feed the survivors back as records: a second pass changes nothing.
    let again: Vec<RawRecord> = once
        .iter()
        .map(|d| {
            min_max_record(
                d.rect.min_x,
                d.rect.min_y,
                d.rect.max_x,
                d.rect.max_y,
                PPM_ONE as i64,
                vec![d.score_ppm as i64],
            )
        })
        .collect();
    let twice = suppress(&again, &test_config());
    assert_eq!(once, twice);
}

#[test]
fn output_sorted_by_descending_confidence() {
    let a = min_max_record(0, 0, 10, 10, PPM_ONE as i64, vec![300_000]);
    let b = min_max_record(200, 200, 210, 210, PPM_ONE as i64, vec![900_000]);
    let c = min_max_record(400, 400, 410, 410, PPM_ONE as i64, vec![600_000]);
    let out = suppress(&vec![a, b, c], &test_config());
    assert_eq!(out.len(), 3);
    assert_eq!(out[0].score_ppm, 900_000);
    assert_eq!(out[1].score_ppm, 600_000);
    assert_eq!(out[2].score_ppm, 300_000);
}

#[test]
fn confidence_tie_breaks_to_earlier_record() {
    let a = min_max_record(0, 0, 10, 10, PPM_ONE as i64, vec![500_000]);
    let b = min_max_record(200, 200, 210, 210, PPM_ONE as i64, vec![500_000]);
    let out = suppress(&vec![a, b], &test_config());
    assert_eq!(out.len(), 2);
    assert_eq!(out[0].rect.min_x, 0);
    assert_eq!(out[1].rect.min_x, 200);
}

#[test]
fn raising_objectness_threshold_never_adds_detections() {
    // Two disjoint boxes with objectness 0.9 and 0.6.
    let a = min_max_record(0, 0, 10, 10, 900_000, vec![PPM_ONE as i64]);
    let b = min_max_record(200, 200, 210, 210, 600_000, vec![PPM_ONE as i64]);
    let mut low = test_config();
    low.objectness_ppm = 500_000;
    let mut high = test_config();
    high.objectness_ppm = 700_000;
    let at_low = suppress(&vec![a.clone(), b.clone()], &low);
    let at_high = suppress(&vec![a, b], &high);
    assert_eq!(at_low.len(), 2);
    assert_eq!(at_high.len(), 1);
    assert!(at_high.len() <= at_low.len());
}

#[test]
fn raising_class_threshold_never_adds_detections() {
    let a = min_max_record(0, 0, 10, 10, PPM_ONE as i64, vec![900_000]);
    let b = min_max_record(200, 200, 210, 210, PPM_ONE as i64, vec![600_000]);
    let mut low = test_config();
    low.class_score_ppm = 500_000;
    let mut high = test_config();
    high.class_score_ppm = 700_000;
    let at_low = suppress(&vec![a.clone(), b.clone()], &low);
    let at_high = suppress(&vec![a, b], &high);
    assert_eq!(at_low.len(), 2);
    assert_eq!(at_high.len(), 1);
}

#[test]
fn raising_iou_threshold_never_removes_detections() {
    // The same 0.9-IoU pair: at threshold 0.5 one box is suppressed, at
    // threshold 0.95 nothing overlaps "too much" and both survive.
    let a = min_max_record(0, 0, 100, 100, PPM_ONE as i64, vec![900_000]);
    let b = min_max_record(0, 0, 100, 90, PPM_ONE as i64, vec![600_000]);
    let mut strict = test_config();
    strict.iou_ppm = 500_000;
    let mut loose = test_config();
    loose.iou_ppm = 950_000;
    let at_strict = suppress(&vec![a.clone(), b.clone()], &strict);
    let at_loose = suppress(&vec![a, b], &loose);
    assert_eq!(at_strict.len(), 1);
    assert_eq!(at_loose.len(), 2);
    assert!(at_loose.len() >= at_strict.len());
}

#[test]
fn different_classes_are_not_suppressed() {
    // Perfect overlap but different best classes: both stay.
    let a = min_max_record(0, 0, 100, 100, PPM_ONE as i64, vec![900_000, 0]);
    let b = min_max_record(0, 0, 100, 100, PPM_ONE as i64, vec![0, 600_000]);
    let out = suppress(&vec![a, b], &test_config());
    assert_eq!(out.len(), 2);
    assert_eq!(out[0].class_id, 0);
    assert_eq!(out[1].class_id, 1);
}

#[test]
fn center_size_geometry_converts_and_clips() {
    let mut cfg = test_config();
    cfg.coord = CoordMode::CenterSize;
    // Center (50, 50), size 30x20: corners (35, 40) and (65, 60).
    let a = RawRecord {
        center_x: 50,
        center_y: 50,
        width: 30,
        height: 20,
        objectness: PPM_ONE as i64,
        class_scores: vec![PPM_ONE as i64],
    };
    // Center near the origin: the box is clipped to the extent.
    let b = RawRecord {
        center_x: 500,
        center_y: 995,
        width: 40,
        height: 40,
        objectness: PPM_ONE as i64,
        class_scores: vec![0, PPM_ONE as i64],
    };
    let out = suppress(&vec![a, b], &cfg);
    assert_eq!(out.len(), 2);
    assert_eq!(
        out[0].rect,
        Rect { min_x: 35, min_y: 40, max_x: 65, max_y: 60 }
    );
    assert_eq!(
        out[1].rect,
        Rect { min_x: 480, min_y: 975, max_x: 520, max_y: 1000 }
    );
}

fn service_config(class_count: usize) -> ServiceConfig {
    ServiceConfig {
        class_count,
        norm: FloatNorm::ZeroToOne,
        quant: QuantParams::identity(),
        suppress: SuppressConfig {
            objectness_ppm: 1,
            class_score_ppm: 0,
            iou_ppm: 500_000,
            coord: CoordMode::MinMax,
            activation: Activation::Identity,
            extent_x: 300_000_000,
            extent_y: 300_000_000,
        },
    }
}

#[test]
fn all_zero_output_tensor_yields_empty_list() {
    // Two whole records of zeros: every score sits below the positive
    // objectness threshold, so the list is empty and no error is raised.
    let cfg = service_config(2);
    let output = vec![0u8; 14];
    let out = finish_detection(&output, &cfg).unwrap();
    assert!(out.is_empty());
}

#[test]
fn truncated_output_tensor_is_rejected() {
    let cfg = service_config(1);
    // Record size is 6; 7 bytes are not a whole number of records.
    let output = vec![0u8; 7];
    assert_eq!(finish_detection(&output, &cfg), Err(DetectError::TruncatedOutput));
}

#[test]
fn quantized_tensor_detects_one_box() {
    let cfg = service_config(1);
    // One record, min/max coordinates 10..200 in raw units, objectness and
    // class score both 1 (dequantized with scale 1.0 to exactly 1_000_000).
    let output = vec![10u8, 10, 200, 200, 1, 1];
    let out = finish_detection(&output, &cfg).unwrap();
    assert_eq!(out.len(), 1);
    assert_eq!(out[0].score_ppm, PPM_ONE);
    assert_eq!(out[0].rect.min_x, 10_000_000);
    assert_eq!(out[0].rect.max_x, 200_000_000);
    // Determinism: a second identical run yields the identical list.
    let again = finish_detection(&output, &cfg).unwrap();
    assert_eq!(out, again);
}

#[test]
fn sigmoid_activation_is_half_at_zero_and_bounded() {
    assert_eq!(activate(Activation::Sigmoid, 0), PPM_ONE / 2);
    let hi = activate(Activation::Sigmoid, 5_000_000_000);
    let lo = activate(Activation::Sigmoid, -5_000_000_000);
    assert!(hi > PPM_ONE / 2 && hi <= PPM_ONE);
    assert!(lo < PPM_ONE / 2);
    // The rational sigmoid is symmetric around one half.
    assert_eq!(hi - PPM_ONE / 2, PPM_ONE / 2 - lo);
}

#[test]
fn dequantize_applies_scale_and_zero_point() {
    let q = QuantParams { scale_ppm: 2_000_000, zero_point: 1 };
    assert_eq!(dequantize(&q, 3), 4_000_000);
    assert_eq!(dequantize(&q, 0), -2_000_000);
    assert_eq!(dequantize(&q, 1), 0);
}
