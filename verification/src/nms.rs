//! Detection decoding and non-maximum suppression.
//!
//! Records are filtered by activated objectness and class score, classified
//! to their best class, converted to clipped boxes, sorted by descending
//! confidence (ties broken by the earlier record index), and then greedily
//! suppressed: a candidate is kept exactly when no already-kept candidate of
//! the same class overlaps it beyond the IoU threshold.

use vstd::prelude::*;
use crate::fixed::{Activation, activate, activate_spec, clampi, PPM_ONE, DEQUANT_LIMIT};
use crate::geometry::{
    Rect, iou_exceeds, rect_iou_exceeds, clamp_i64, lemma_iou_symmetric,
    lemma_iou_threshold_monotone, COORD_LIMIT,
};
use crate::codec::{RawRecord, RecordView, views_of};

verus! {

/// How a record encodes its geometry: center/size, or min/max corners.
#[derive(Clone, Copy, Debug, PartialEq, Eq, Structural)]
pub enum CoordMode {
    CenterSize,
    MinMax,
}

/// The decoder's configuration.  Thresholds are fixed-point probabilities in
/// parts per million; `extent_x`/`extent_y` bound the output coordinate
/// space, and every box is clipped to `[0, extent]` on each axis.
#[derive(Clone, Copy, Debug, PartialEq, Eq, Structural)]
pub struct SuppressConfig {
    pub objectness_ppm: u32,
    pub class_score_ppm: u32,
    pub iou_ppm: u32,
    pub coord: CoordMode,
    pub activation: Activation,
    pub extent_x: i64,
    pub extent_y: i64,
}

impl SuppressConfig {
    /// Thresholds are probabilities; extents are nonnegative and bounded.
    pub open spec fn wf(self) -> bool {
        &&& self.objectness_ppm <= PPM_ONE
        &&& self.class_score_ppm <= PPM_ONE
        &&& self.iou_ppm <= PPM_ONE
        &&& 0 <= self.extent_x <= COORD_LIMIT
        &&& 0 <= self.extent_y <= COORD_LIMIT
    }
}

/// A surviving record after filtering and classification: its clipped box,
/// its combined confidence, its class, and the index of the record it came
/// from (the tie-breaker that keeps suppression deterministic).
#[derive(Clone, Copy, Debug, PartialEq, Eq, Structural)]
pub struct Candidate {
    pub rect: Rect,
    pub score_ppm: u32,
    pub class: usize,
    pub index: usize,
}

impl Candidate {
    /// A candidate the suppression stage can work on.
    pub open spec fn wf(self) -> bool {
        &&& self.rect.wf()
        &&& self.score_ppm <= PPM_ONE
    }
}

/// One final detection: clipped box, confidence, class index.
#[derive(Clone, Copy, Debug, PartialEq, Eq, Structural)]
pub struct Detection {
    pub rect: Rect,
    pub score_ppm: u32,
    pub class_id: usize,
}

/// Every element of the sequence is a well-formed candidate.
pub open spec fn all_wf(s: Seq<Candidate>) -> bool {
    forall|i: int| 0 <= i < s.len() ==> (#[trigger] s[i]).wf()
}

/// `a` may stand before `b` in the output: strictly higher confidence, or
/// equal confidence and an index no later.
pub open spec fn ordered(a: Candidate, b: Candidate) -> bool {
    a.score_ppm > b.score_ppm || (a.score_ppm == b.score_ppm && a.index <= b.index)
}

/// `a` must stand strictly before `b`: higher confidence, or equal
/// confidence and a strictly earlier index.
pub open spec fn strictly_before(a: Candidate, b: Candidate) -> bool {
    a.score_ppm > b.score_ppm || (a.score_ppm == b.score_ppm && a.index < b.index)
}

/// The sequence is sorted by descending confidence, earlier index first.
pub open spec fn sorted_cands(s: Seq<Candidate>) -> bool {
    forall|i: int, j: int| 0 <= i < j < s.len() ==> ordered(#[trigger] s[i], #[trigger] s[j])
}

/// Inserts `x` into a sorted sequence, directly before the first element it
/// must strictly precede.
pub open spec fn insert_cand(x: Candidate, s: Seq<Candidate>) -> Seq<Candidate>
    decreases s.len(),
{
    if s.len() == 0 {
        seq![x]
    } else if strictly_before(x, s[0]) {
        seq![x] + s
    } else {
        seq![s[0]] + insert_cand(x, s.drop_first())
    }
}

/// Insertion sort: the canonical sorted arrangement of the candidates.
pub open spec fn sort_spec(s: Seq<Candidate>) -> Seq<Candidate>
    decreases s.len(),
{
    if s.len() == 0 {
        Seq::empty()
    } else {
        insert_cand(s.last(), sort_spec(s.drop_last()))
    }
}

proof fn lemma_insert_cand_len(x: Candidate, s: Seq<Candidate>)
    ensures
        insert_cand(x, s).len() == s.len() + 1,
    decreases s.len(),
{
    if s.len() > 0 && !strictly_before(x, s[0]) {
        lemma_insert_cand_len(x, s.drop_first());
    }
}

/// Inserting preserves a pointwise property.
proof fn lemma_insert_cand_wf(x: Candidate, s: Seq<Candidate>)
    requires
        x.wf(),
        all_wf(s),
    ensures
        all_wf(insert_cand(x, s)),
    decreases s.len(),
{
    if s.len() > 0 && !strictly_before(x, s[0]) {
        assert(all_wf(s.drop_first()));
        lemma_insert_cand_wf(x, s.drop_first());
        let out = seq![s[0]] + insert_cand(x, s.drop_first());
        assert forall|i: int| 0 <= i < out.len() implies (#[trigger] out[i]).wf() by {
            if i > 0 {
                assert(out[i] == insert_cand(x, s.drop_first())[i - 1]);
            }
        }
    }
}

/// Inserting into a sorted sequence keeps it sorted.
proof fn lemma_insert_cand_sorted(x: Candidate, s: Seq<Candidate>)
    requires
        sorted_cands(s),
    ensures
        sorted_cands(insert_cand(x, s)),
    decreases s.len(),
{
    if s.len() == 0 {
    } else if strictly_before(x, s[0]) {
        let out = seq![x] + s;
        assert forall|i: int, j: int| 0 <= i < j < out.len() implies ordered(
            #[trigger] out[i],
            #[trigger] out[j],
        ) by {
            if i == 0 {
                assert(ordered(s[0], out[j]) || j == 1);
            }
        }
    } else {
        assert(sorted_cands(s.drop_first()));
        lemma_insert_cand_sorted(x, s.drop_first());
        lemma_insert_cand_len(x, s.drop_first());
        let t = insert_cand(x, s.drop_first());
        let out = seq![s[0]] + t;
        assert forall|i: int, j: int| 0 <= i < j < out.len() implies ordered(
            #[trigger] out[i],
            #[trigger] out[j],
        ) by {
            if i == 0 {
                lemma_insert_cand_elements(x, s.drop_first(), j - 1);
            }
        }
    }
}

/// Every element of `insert_cand(x, s)` is `x` or an element of `s`; here
/// stated as: it is `x` or one of the `s[k]`.
proof fn lemma_insert_cand_elements(x: Candidate, s: Seq<Candidate>, i: int)
    requires
        0 <= i < s.len() + 1,
    ensures
        insert_cand(x, s).len() == s.len() + 1,
        insert_cand(x, s)[i] == x || exists|k: int| 0 <= k < s.len() && insert_cand(x, s)[i] == s[k],
    decreases s.len(),
{
    lemma_insert_cand_len(x, s);
    if s.len() == 0 {
    } else if strictly_before(x, s[0]) {
        if i > 0 {
            assert(insert_cand(x, s)[i] == s[i - 1]);
        }
    } else {
        if i == 0 {
            assert(insert_cand(x, s)[0] == s[0]);
        } else {
            lemma_insert_cand_elements(x, s.drop_first(), i - 1);
            assert(insert_cand(x, s)[i] == insert_cand(x, s.drop_first())[i - 1]);
            if insert_cand(x, s.drop_first())[i - 1] != x {
                let k = choose|k: int|
                    0 <= k < s.drop_first().len() && insert_cand(x, s.drop_first())[i - 1]
                        == s.drop_first()[k];
                assert(insert_cand(x, s)[i] == s[k + 1]);
            }
        }
    }
}

/// The sorted arrangement is sorted, has the same length, keeps every
/// element well-formed when the input is.
pub proof fn lemma_sort_spec_props(s: Seq<Candidate>)
    ensures
        sort_spec(s).len() == s.len(),
        sorted_cands(sort_spec(s)),
        all_wf(s) ==> all_wf(sort_spec(s)),
    decreases s.len(),
{
    if s.len() > 0 {
        assert(all_wf(s) ==> all_wf(s.drop_last()));
        lemma_sort_spec_props(s.drop_last());
        lemma_insert_cand_len(s.last(), sort_spec(s.drop_last()));
        lemma_insert_cand_sorted(s.last(), sort_spec(s.drop_last()));
        if all_wf(s) {
            lemma_insert_cand_wf(s.last(), sort_spec(s.drop_last()));
        }
    }
}

/// Inserting an element that no element of `s` must follow appends it.
proof fn lemma_insert_cand_at_end(x: Candidate, s: Seq<Candidate>)
    requires
        forall|i: int| 0 <= i < s.len() ==> !strictly_before(x, #[trigger] s[i]),
    ensures
        insert_cand(x, s) == s.push(x),
    decreases s.len(),
{
    if s.len() == 0 {
        assert(insert_cand(x, s) =~= s.push(x));
    } else {
        assert(forall|i: int|
            0 <= i < s.drop_first().len() ==> !strictly_before(x, #[trigger] s.drop_first()[i]));
        lemma_insert_cand_at_end(x, s.drop_first());
        assert(insert_cand(x, s) =~= s.push(x));
    }
}

/// Sorting an already sorted sequence changes nothing.
pub proof fn lemma_sort_of_sorted(s: Seq<Candidate>)
    requires
        sorted_cands(s),
    ensures
        sort_spec(s) == s,
    decreases s.len(),
{
    if s.len() > 0 {
        assert(sorted_cands(s.drop_last()));
        lemma_sort_of_sorted(s.drop_last());
        assert forall|i: int| 0 <= i < s.drop_last().len() implies !strictly_before(
            s.last(),
            #[trigger] s.drop_last()[i],
        ) by {
            assert(ordered(s[i], s.last()));
        }
        lemma_insert_cand_at_end(s.last(), s.drop_last());
        assert(sort_spec(s) =~= s);
    }
}

/// The least insertion position: `insert_cand` drops `x` directly before the
/// first element it must strictly precede.
proof fn lemma_insert_cand_at(x: Candidate, s: Seq<Candidate>, j: int)
    requires
        0 <= j <= s.len(),
        forall|i: int| 0 <= i < j ==> !strictly_before(x, #[trigger] s[i]),
        j == s.len() || strictly_before(x, s[j]),
    ensures
        insert_cand(x, s) == s.insert(j, x),
    decreases s.len(),
{
    if j == s.len() {
        lemma_insert_cand_at_end(x, s);
        assert(s.push(x) =~= s.insert(j, x));
    } else if j == 0 {
        assert(insert_cand(x, s) =~= s.insert(0, x));
    } else {
        lemma_insert_cand_at(x, s.drop_first(), j - 1);
        assert(insert_cand(x, s) =~= s.insert(j, x));
    }
}

/// Sorts candidates by descending confidence, ties to the earlier index.
pub fn sort_candidates(v: &mut Vec<Candidate>)
    ensures
        final(v)@ == sort_spec(old(v)@),
        sorted_cands(final(v)@),
        final(v)@.len() == old(v)@.len(),
        all_wf(old(v)@) ==> all_wf(final(v)@),
{
    let mut out: Vec<Candidate> = Vec::new();
    let n = v.len();
    proof {
        assert(v@.take(0) =~= Seq::<Candidate>::empty());
    }
    let mut i: usize = 0;
    while i < n
        invariant
            n == v@.len(),
            i <= n,
            out@ == sort_spec(v@.take(i as int)),
        decreases n - i,
    {
        let x = v[i];
        let mut j: usize = 0;
        let olen = out.len();
        while j < olen && (x.score_ppm < out[j].score_ppm || (x.score_ppm == out[j].score_ppm
            && x.index >= out[j].index))
            invariant
                olen == out@.len(),
                j <= olen,
                forall|k: int| 0 <= k < j ==> !strictly_before(x, #[trigger] out@[k]),
            decreases olen - j,
        {
            j = j + 1;
        }
        proof {
            lemma_insert_cand_at(x, out@, j as int);
            assert(v@.take(i as int + 1).drop_last() =~= v@.take(i as int));
            assert(v@.take(i as int + 1).last() == v@[i as int]);
        }
        out.insert(j, x);
        i = i + 1;
    }
    proof {
        assert(v@.take(n as int) =~= v@);
        lemma_sort_spec_props(v@);
    }
    *v = out;
}

/// `c` may be kept next to everything already kept: no kept candidate of
/// the same class overlaps it beyond the threshold.
pub open spec fn keep_ok(kept: Seq<Candidate>, c: Candidate, iou_ppm: u32) -> bool {
    forall|i: int|
        0 <= i < kept.len() ==> ((#[trigger] kept[i]).class == c.class ==> !iou_exceeds(
            kept[i].rect,
            c.rect,
            iou_ppm,
        ))
}

/// The greedy suppression walk from position `i` with `kept` already kept.
pub open spec fn greedy_from(s: Seq<Candidate>, kept: Seq<Candidate>, i: int, iou_ppm: u32) -> Seq<
    Candidate,
>
    decreases s.len() - i when 0 <= i <= s.len()
{
    if i >= s.len() {
        kept
    } else if keep_ok(kept, s[i], iou_ppm) {
        greedy_from(s, kept.push(s[i]), i + 1, iou_ppm)
    } else {
        greedy_from(s, kept, i + 1, iou_ppm)
    }
}

/// Greedy non-maximum suppression over a confidence-sorted sequence.
pub open spec fn greedy_spec(s: Seq<Candidate>, iou_ppm: u32) -> Seq<Candidate> {
    greedy_from(s, Seq::empty(), 0, iou_ppm)
}

/// No two same-class elements, in either order, overlap beyond the
/// threshold.
pub open spec fn pairwise_ok(s: Seq<Candidate>, iou_ppm: u32) -> bool {
    forall|i: int, j: int|
        0 <= i < s.len() && 0 <= j < s.len() && i != j && (#[trigger] s[i]).class
            == (#[trigger] s[j]).class ==> !iou_exceeds(s[i].rect, s[j].rect, iou_ppm)
}

/// The greedy walk keeps `kept` pairwise clean, keeps every element
/// well-formed, orders its output when the input and `kept` are ordered,
/// and never grows past `kept` plus the remaining input.
proof fn lemma_greedy_from_props(s: Seq<Candidate>, kept: Seq<Candidate>, i: int, iou_ppm: u32)
    requires
        0 <= i <= s.len(),
        pairwise_ok(kept, iou_ppm),
        all_wf(kept),
        all_wf(s),
    ensures
        pairwise_ok(greedy_from(s, kept, i, iou_ppm), iou_ppm),
        all_wf(greedy_from(s, kept, i, iou_ppm)),
        greedy_from(s, kept, i, iou_ppm).len() <= kept.len() + s.len() - i,
        sorted_cands(kept) && sorted_cands(s) && (forall|k: int, j: int|
            0 <= k < kept.len() && i <= j < s.len() ==> ordered(#[trigger] kept[k], #[trigger] s[j]))
            ==> sorted_cands(greedy_from(s, kept, i, iou_ppm)),
    decreases s.len() - i,
{
    if i >= s.len() {
    } else if keep_ok(kept, s[i], iou_ppm) {
        let kept2 = kept.push(s[i]);
        assert(pairwise_ok(kept2, iou_ppm)) by {
            assert forall|a: int, b: int|
                0 <= a < kept2.len() && 0 <= b < kept2.len() && a != b && (#[trigger] kept2[a]).class
                    == (#[trigger] kept2[b]).class implies !iou_exceeds(
                kept2[a].rect,
                kept2[b].rect,
                iou_ppm,
            ) by {
                if b == kept.len() && a < kept.len() {
                    assert(kept2[a] == kept[a]);
                    assert(!iou_exceeds(kept[a].rect, s[i].rect, iou_ppm));
                } else if a == kept.len() && b < kept.len() {
                    assert(kept2[b] == kept[b]);
                    assert(!iou_exceeds(kept[b].rect, s[i].rect, iou_ppm));
                    lemma_iou_symmetric(s[i].rect, kept[b].rect, iou_ppm);
                } else {
                    assert(kept2[a] == kept[a] && kept2[b] == kept[b]);
                }
            }
        }
        assert(all_wf(kept2));
        lemma_greedy_from_props(s, kept2, i + 1, iou_ppm);
        if sorted_cands(kept) && sorted_cands(s) && (forall|k: int, j: int|
            0 <= k < kept.len() && i <= j < s.len() ==> ordered(
                #[trigger] kept[k],
                #[trigger] s[j],
            )) {
            assert(sorted_cands(kept2)) by {
                assert forall|a: int, b: int| 0 <= a < b < kept2.len() implies ordered(
                    #[trigger] kept2[a],
                    #[trigger] kept2[b],
                ) by {
                    if b == kept.len() {
                        assert(kept2[a] == kept[a]);
                        assert(ordered(kept[a], s[i]));
                    }
                }
            }
            assert(forall|k: int, j: int|
                0 <= k < kept2.len() && i + 1 <= j < s.len() ==> ordered(
                    #[trigger] kept2[k],
                    #[trigger] s[j],
                ));
        }
    } else {
        lemma_greedy_from_props(s, kept, i + 1, iou_ppm);
    }
}

/// The suppressed list is pairwise clean, well-formed, no longer than its
/// input, and sorted when the input is sorted.
pub proof fn lemma_greedy_spec_props(s: Seq<Candidate>, iou_ppm: u32)
    requires
        all_wf(s),
    ensures
        pairwise_ok(greedy_spec(s, iou_ppm), iou_ppm),
        all_wf(greedy_spec(s, iou_ppm)),
        greedy_spec(s, iou_ppm).len() <= s.len(),
        sorted_cands(s) ==> sorted_cands(greedy_spec(s, iou_ppm)),
{
    lemma_greedy_from_props(s, Seq::empty(), 0, iou_ppm);
}

/// When nothing in the input violates the threshold, suppression keeps
/// everything.
proof fn lemma_greedy_from_of_pairwise(s: Seq<Candidate>, i: int, iou_ppm: u32)
    requires
        0 <= i <= s.len(),
        pairwise_ok(s, iou_ppm),
    ensures
        greedy_from(s, s.take(i), i, iou_ppm) == s,
    decreases s.len() - i,
{
    if i >= s.len() {
        assert(s.take(i) =~= s);
    } else {
        assert(keep_ok(s.take(i), s[i], iou_ppm)) by {
            assert forall|k: int|
                0 <= k < s.take(i).len() && (#[trigger] s.take(i)[k]).class == s[i].class
                    implies !iou_exceeds(s.take(i)[k].rect, s[i].rect, iou_ppm) by {
                assert(s.take(i)[k] == s[k]);
            }
        }
        assert(s.take(i).push(s[i]) =~= s.take(i + 1));
        lemma_greedy_from_of_pairwise(s, i + 1, iou_ppm);
    }
}

/// A pairwise-clean sequence passes suppression unchanged.
pub proof fn lemma_greedy_of_pairwise_ok(s: Seq<Candidate>, iou_ppm: u32)
    requires
        pairwise_ok(s, iou_ppm),
    ensures
        greedy_spec(s, iou_ppm) == s,
{
    assert(s.take(0) =~= Seq::<Candidate>::empty());
    lemma_greedy_from_of_pairwise(s, 0, iou_ppm);
}

/// Sorting then greedily suppressing: the whole suppression stage.
pub open spec fn nms_spec(s: Seq<Candidate>, iou_ppm: u32) -> Seq<Candidate> {
    greedy_spec(sort_spec(s), iou_ppm)
}

/// Suppression is idempotent: what survives one pass has no overlapping
/// same-class pairs left, so a second pass with the same configuration
/// changes nothing.
pub proof fn lemma_nms_idempotent(s: Seq<Candidate>, iou_ppm: u32)
    requires
        all_wf(s),
    ensures
        nms_spec(nms_spec(s, iou_ppm), iou_ppm) == nms_spec(s, iou_ppm),
{
    lemma_sort_spec_props(s);
    lemma_greedy_spec_props(sort_spec(s), iou_ppm);
    let t = nms_spec(s, iou_ppm);
    lemma_sort_of_sorted(t);
    lemma_greedy_of_pairwise_ok(t, iou_ppm);
}

/// Raising the IoU threshold cannot break a pairwise-clean input, so when
/// one threshold suppresses nothing, no higher threshold suppresses
/// anything either: the suppressed list never shrinks.
pub proof fn lemma_nms_iou_monotone_clean(s: Seq<Candidate>, t1: u32, t2: u32)
    requires
        t1 <= t2,
        all_wf(s),
        pairwise_ok(sort_spec(s), t1),
    ensures
        nms_spec(s, t1) == sort_spec(s),
        nms_spec(s, t2) == sort_spec(s),
        nms_spec(s, t2).len() >= nms_spec(s, t1).len(),
{
    lemma_sort_spec_props(s);
    let t = sort_spec(s);
    assert(pairwise_ok(t, t2)) by {
        assert forall|i: int, j: int|
            0 <= i < t.len() && 0 <= j < t.len() && i != j && (#[trigger] t[i]).class
                == (#[trigger] t[j]).class implies !iou_exceeds(t[i].rect, t[j].rect, t2) by {
            lemma_iou_threshold_monotone(t[i].rect, t[j].rect, t1, t2);
        }
    }
    lemma_greedy_of_pairwise_ok(t, t1);
    lemma_greedy_of_pairwise_ok(t, t2);
}

/// Greedy suppression of a sorted candidate vector.
fn greedy(v: &Vec<Candidate>, iou_ppm: u32) -> (out: Vec<Candidate>)
    requires
        all_wf(v@),
        iou_ppm <= PPM_ONE,
    ensures
        out@ == greedy_spec(v@, iou_ppm),
        all_wf(out@),
{
    let mut out: Vec<Candidate> = Vec::new();
    let n = v.len();
    let mut i: usize = 0;
    while i < n
        invariant
            n == v@.len(),
            i <= n,
            all_wf(v@),
            all_wf(out@),
            iou_ppm <= PPM_ONE,
            greedy_from(v@, out@, i as int, iou_ppm) == greedy_spec(v@, iou_ppm),
        decreases n - i,
    {
        let c = v[i];
        let olen = out.len();
        let mut ok = true;
        let mut j: usize = 0;
        while j < olen
            invariant
                olen == out@.len(),
                j <= olen,
                all_wf(out@),
                c.wf(),
                iou_ppm <= PPM_ONE,
                ok == keep_ok(out@.take(j as int), c, iou_ppm),
            decreases olen - j,
        {
            if out[j].class == c.class && rect_iou_exceeds(&out[j].rect, &c.rect, iou_ppm) {
                ok = false;
            }
            proof {
                assert(out@.take(j as int + 1).drop_last() =~= out@.take(j as int));
                assert(out@.take(j as int + 1).last() == out@[j as int]);
                assert(keep_ok(out@.take(j as int + 1), c, iou_ppm) == (keep_ok(
                    out@.take(j as int),
                    c,
                    iou_ppm,
                ) && (out@[j as int].class != c.class || !iou_exceeds(
                    out@[j as int].rect,
                    c.rect,
                    iou_ppm,
                )))) by {
                    let t1 = out@.take(j as int + 1);
                    let t0 = out@.take(j as int);
                    if keep_ok(t0, c, iou_ppm) && (out@[j as int].class != c.class || !iou_exceeds(
                        out@[j as int].rect,
                        c.rect,
                        iou_ppm,
                    )) {
                        assert forall|k: int|
                            0 <= k < t1.len() && (#[trigger] t1[k]).class == c.class
                                implies !iou_exceeds(t1[k].rect, c.rect, iou_ppm) by {
                            if k < j {
                                assert(t1[k] == t0[k]);
                            }
                        }
                    }
                }
            }
            j = j + 1;
        }
        proof {
            assert(out@.take(olen as int) =~= out@);
        }
        if ok {
            out.push(c);
        }
        i = i + 1;
    }
    proof {
        assert(greedy_from(v@, out@, n as int, iou_ppm) == out@);
    }
    out
}

/// The record's box in output coordinates, clipped to the configured
/// extents.  In center/size mode the min corner is `center - size/2` and
/// the max corner `center + (size - size/2)` (floor halving, a negative
/// size reads as zero); in min/max mode the four fields are the two
/// corners, swapped into order when the model emits them reversed.
pub open spec fn rect_of_record(rec: RecordView, cfg: SuppressConfig) -> Rect {
    match cfg.coord {
        CoordMode::CenterSize => {
            let wn = if rec.width >= 0 { rec.width } else { 0 };
            let hn = if rec.height >= 0 { rec.height } else { 0 };
            Rect {
                min_x: clampi(rec.center_x - wn / 2, 0, cfg.extent_x as int) as i64,
                min_y: clampi(rec.center_y - hn / 2, 0, cfg.extent_y as int) as i64,
                max_x: clampi(rec.center_x + (wn - wn / 2), 0, cfg.extent_x as int) as i64,
                max_y: clampi(rec.center_y + (hn - hn / 2), 0, cfg.extent_y as int) as i64,
            }
        }
        CoordMode::MinMax => {
            let x0 = if rec.center_x <= rec.width { rec.center_x } else { rec.width };
            let x1 = if rec.center_x <= rec.width { rec.width } else { rec.center_x };
            let y0 = if rec.center_y <= rec.height { rec.center_y } else { rec.height };
            let y1 = if rec.center_y <= rec.height { rec.height } else { rec.center_y };
            Rect {
                min_x: clampi(x0, 0, cfg.extent_x as int) as i64,
                min_y: clampi(y0, 0, cfg.extent_y as int) as i64,
                max_x: clampi(x1, 0, cfg.extent_x as int) as i64,
                max_y: clampi(y1, 0, cfg.extent_y as int) as i64,
            }
        }
    }
}

/// Converts one record's geometry fields to a clipped, well-formed box.
pub fn rect_of(rec: &RawRecord, cfg: &SuppressConfig) -> (r: Rect)
    requires
        rec@.bounded(),
        cfg.wf(),
    ensures
        r == rect_of_record(rec@, *cfg),
        r.wf(),
{
    match cfg.coord {
        CoordMode::CenterSize => {
            let wn: i64 = if rec.width >= 0 { rec.width } else { 0 };
            let hn: i64 = if rec.height >= 0 { rec.height } else { 0 };
            let half_w: i64 = wn / 2;
            let half_h: i64 = hn / 2;
            Rect {
                min_x: clamp_i64(rec.center_x - half_w, 0, cfg.extent_x),
                min_y: clamp_i64(rec.center_y - half_h, 0, cfg.extent_y),
                max_x: clamp_i64(rec.center_x + (wn - half_w), 0, cfg.extent_x),
                max_y: clamp_i64(rec.center_y + (hn - half_h), 0, cfg.extent_y),
            }
        }
        CoordMode::MinMax => {
            let x0: i64 = if rec.center_x <= rec.width { rec.center_x } else { rec.width };
            let x1: i64 = if rec.center_x <= rec.width { rec.width } else { rec.center_x };
            let y0: i64 = if rec.center_y <= rec.height { rec.center_y } else { rec.height };
            let y1: i64 = if rec.center_y <= rec.height { rec.height } else { rec.center_y };
            Rect {
                min_x: clamp_i64(x0, 0, cfg.extent_x),
                min_y: clamp_i64(y0, 0, cfg.extent_y),
                max_x: clamp_i64(x1, 0, cfg.extent_x),
                max_y: clamp_i64(y1, 0, cfg.extent_y),
            }
        }
    }
}

/// The record's class scores after activation.
pub open spec fn act_scores(rec: RecordView, a: Activation) -> Seq<int> {
    rec.class_scores.map(|_k: int, v: int| activate_spec(a, v))
}

/// The index of the best class: the first index of maximum activated score.
pub open spec fn best_idx(s: Seq<int>) -> int
    decreases s.len(),
{
    if s.len() <= 1 {
        0
    } else {
        let b = best_idx(s.drop_last());
        if s.last() > s[b] {
            s.len() - 1
        } else {
            b
        }
    }
}

proof fn lemma_best_idx_range(s: Seq<int>)
    requires
        s.len() >= 1,
    ensures
        0 <= best_idx(s) < s.len(),
    decreases s.len(),
{
    if s.len() > 1 {
        lemma_best_idx_range(s.drop_last());
    }
}

/// The record's activated objectness.
pub open spec fn obj_score(rec: RecordView, cfg: SuppressConfig) -> int {
    activate_spec(cfg.activation, rec.objectness)
}

/// The record's best activated class score.
pub open spec fn best_score(rec: RecordView, cfg: SuppressConfig) -> int {
    act_scores(rec, cfg.activation)[best_idx(act_scores(rec, cfg.activation))]
}

/// Whether the record survives filtering: activated objectness at least the
/// objectness threshold, and the best activated class score at least the
/// class-score threshold.
pub open spec fn passes(rec: RecordView, cfg: SuppressConfig) -> bool {
    obj_score(rec, cfg) >= cfg.objectness_ppm && best_score(rec, cfg) >= cfg.class_score_ppm
}

/// The candidate a surviving record becomes: its clipped box, the combined
/// confidence `objectness * best class score` (a fixed-point product), its
/// best class, and its record index.
pub open spec fn cand_of(rec: RecordView, cfg: SuppressConfig, i: int) -> Candidate {
    Candidate {
        rect: rect_of_record(rec, cfg),
        score_ppm: (obj_score(rec, cfg) * best_score(rec, cfg) / (PPM_ONE as int)) as u32,
        class: best_idx(act_scores(rec, cfg.activation)) as usize,
        index: i as usize,
    }
}

/// Filtering and classification of a record sequence, in record order.
pub open spec fn classify_spec(recs: Seq<RecordView>, cfg: SuppressConfig) -> Seq<Candidate>
    decreases recs.len(),
{
    if recs.len() == 0 {
        Seq::empty()
    } else {
        let pre = classify_spec(recs.drop_last(), cfg);
        if passes(recs.last(), cfg) {
            pre.push(cand_of(recs.last(), cfg, recs.len() - 1))
        } else {
            pre
        }
    }
}

/// Raising the objectness or class-score threshold only removes candidates:
/// the filtered list never grows.
pub proof fn lemma_classify_threshold_monotone(
    recs: Seq<RecordView>,
    cfg1: SuppressConfig,
    cfg2: SuppressConfig,
)
    requires
        cfg1.objectness_ppm <= cfg2.objectness_ppm,
        cfg1.class_score_ppm <= cfg2.class_score_ppm,
        cfg1.iou_ppm == cfg2.iou_ppm,
        cfg1.coord == cfg2.coord,
        cfg1.activation == cfg2.activation,
        cfg1.extent_x == cfg2.extent_x,
        cfg1.extent_y == cfg2.extent_y,
    ensures
        classify_spec(recs, cfg2).len() <= classify_spec(recs, cfg1).len(),
    decreases recs.len(),
{
    if recs.len() > 0 {
        lemma_classify_threshold_monotone(recs.drop_last(), cfg1, cfg2);
        assert(passes(recs.last(), cfg2) ==> passes(recs.last(), cfg1));
    }
}

proof fn lemma_classify_none_pass(recs: Seq<RecordView>, cfg: SuppressConfig)
    requires
        forall|i: int| 0 <= i < recs.len() ==> !passes(#[trigger] recs[i], cfg),
    ensures
        classify_spec(recs, cfg) == Seq::<Candidate>::empty(),
    decreases recs.len(),
{
    if recs.len() > 0 {
        assert(forall|i: int|
            0 <= i < recs.drop_last().len() ==> !passes(#[trigger] recs.drop_last()[i], cfg));
        lemma_classify_none_pass(recs.drop_last(), cfg);
        assert(!passes(recs.last(), cfg));
    }
}

/// A tensor in which no record reaches the thresholds — an all-zero output
/// against any positive objectness threshold, say — yields an empty
/// detection list; it is not an error.
pub proof fn lemma_no_survivor_empty(recs: Seq<RecordView>, cfg: SuppressConfig)
    requires
        forall|i: int| 0 <= i < recs.len() ==> !passes(#[trigger] recs[i], cfg),
    ensures
        suppress_spec(recs, cfg).len() == 0,
{
    lemma_classify_none_pass(recs, cfg);
    lemma_sort_spec_props(classify_spec(recs, cfg));
    assert(greedy_spec(sort_spec(classify_spec(recs, cfg)), cfg.iou_ppm)
        == sort_spec(classify_spec(recs, cfg)));
}

/// Every record a decoder hands to the suppression stage: bounded
/// dequantized fields and at least one class score.
pub open spec fn records_ok(recs: Seq<RawRecord>) -> bool {
    forall|i: int|
        0 <= i < recs.len() ==> (#[trigger] recs[i]@).bounded() && recs[i]@.class_scores.len() >= 1
}

/// Filters and classifies records into candidates.
pub fn classify(records: &Vec<RawRecord>, cfg: &SuppressConfig) -> (out: Vec<Candidate>)
    requires
        cfg.wf(),
        records_ok(records@),
    ensures
        out@ == classify_spec(views_of(records@), *cfg),
        all_wf(out@),
{
    let mut out: Vec<Candidate> = Vec::new();
    let n = records.len();
    proof {
        assert(views_of(records@).take(0) =~= Seq::<RecordView>::empty());
    }
    let mut i: usize = 0;
    while i < n
        invariant
            n == records@.len(),
            i <= n,
            cfg.wf(),
            records_ok(records@),
            out@ == classify_spec(views_of(records@).take(i as int), *cfg),
            all_wf(out@),
        decreases n - i,
    {
        let rec = &records[i];
        let ghost rv = rec@;
        let obj = activate(cfg.activation, rec.objectness);
        let cc = rec.class_scores.len();
        let mut acts: Vec<u32> = Vec::new();
        let mut k: usize = 0;
        while k < cc
            invariant
                k <= cc,
                cc == rec.class_scores@.len(),
                rv == rec@,
                rv.bounded(),
                acts@.len() == k,
                forall|j: int|
                    0 <= j < k ==> #[trigger] acts@[j] == act_scores(rv, cfg.activation)[j],
                forall|j: int| 0 <= j < k ==> #[trigger] acts@[j] <= PPM_ONE,
            decreases cc - k,
        {
            proof {
                assert(rv.class_scores[k as int] == rec.class_scores@[k as int] as int);
            }
            let a = activate(cfg.activation, rec.class_scores[k]);
            acts.push(a);
            k = k + 1;
        }
        let mut bi: usize = 0;
        let mut k2: usize = 1;
        let ghost aseq = act_scores(rv, cfg.activation);
        proof {
            assert(aseq.take(1) =~= seq![aseq[0]]);
            assert(best_idx(aseq.take(1)) == 0);
        }
        while k2 < cc
            invariant
                1 <= k2 <= cc,
                cc == rec.class_scores@.len(),
                cc >= 1,
                rv == rec@,
                aseq == act_scores(rv, cfg.activation),
                aseq.len() == cc,
                acts@.len() == cc,
                forall|j: int| 0 <= j < cc ==> #[trigger] acts@[j] == aseq[j],
                forall|j: int| 0 <= j < cc ==> #[trigger] acts@[j] <= PPM_ONE,
                bi < k2,
                bi == best_idx(aseq.take(k2 as int)),
            decreases cc - k2,
        {
            proof {
                assert(aseq.take(k2 as int + 1).drop_last() =~= aseq.take(k2 as int));
                assert(aseq.take(k2 as int + 1).last() == aseq[k2 as int]);
                lemma_best_idx_range(aseq.take(k2 as int));
            }
            if acts[k2] > acts[bi] {
                bi = k2;
            }
            k2 = k2 + 1;
        }
        proof {
            assert(aseq.take(cc as int) =~= aseq);
            lemma_best_idx_range(aseq);
        }
        let best = acts[bi];
        if obj >= cfg.objectness_ppm && best >= cfg.class_score_ppm {
            proof {
                assert(0 <= obj as int * best as int <= (PPM_ONE as int) * (PPM_ONE as int))
                    by (nonlinear_arith)
                    requires
                        obj <= PPM_ONE,
                        best <= PPM_ONE,
                        PPM_ONE == 1000000,
                ;
            }
            let prod: u64 = obj as u64 * best as u64;
            proof {
                vstd::arithmetic::div_mod::lemma_div_is_ordered(
                    prod as int,
                    (PPM_ONE as int) * (PPM_ONE as int),
                    PPM_ONE as int,
                );
                vstd::arithmetic::div_mod::lemma_div_multiples_vanish(
                    PPM_ONE as int,
                    PPM_ONE as int,
                );
                vstd::arithmetic::div_mod::lemma_div_pos_is_pos(prod as int, PPM_ONE as int);
                assert(0 <= prod as int / (PPM_ONE as int) <= PPM_ONE as int);
            }
            let score: u32 = (prod / PPM_ONE as u64) as u32;
            let rect = rect_of(rec, cfg);
            let cand = Candidate { rect, score_ppm: score, class: bi, index: i };
            proof {
                assert(passes(rv, *cfg));
                assert(cand == cand_of(rv, *cfg, i as int));
            }
            out.push(cand);
        } else {
            proof {
                assert(!passes(rv, *cfg));
            }
        }
        proof {
            assert(views_of(records@).take(i as int + 1).drop_last() =~= views_of(
                records@,
            ).take(i as int));
            assert(views_of(records@).take(i as int + 1).last() == rv);
        }
        i = i + 1;
    }
    proof {
        assert(views_of(records@).take(n as int) =~= views_of(records@));
    }
    out
}

/// The final detections of a suppressed candidate sequence.
pub open spec fn detections_of(s: Seq<Candidate>) -> Seq<Detection> {
    s.map(
        |_i: int, c: Candidate| Detection { rect: c.rect, score_ppm: c.score_ppm, class_id: c.class },
    )
}

/// What `suppress` returns: filtering, classification, confidence sort, and
/// greedy suppression, then the candidates stripped to detections.
pub open spec fn suppress_spec(recs: Seq<RecordView>, cfg: SuppressConfig) -> Seq<Detection> {
    detections_of(nms_spec(classify_spec(recs, cfg), cfg.iou_ppm))
}

/// Decodes records into the final detection list.
///
/// The list is ordered by descending confidence (ties to the earlier record
/// index), every entry's box is clipped and well-formed, and no two entries
/// of the same class overlap beyond the IoU threshold.  An empty record
/// list yields an empty detection list.
pub fn suppress(records: &Vec<RawRecord>, cfg: &SuppressConfig) -> (out: Vec<Detection>)
    requires
        cfg.wf(),
        records_ok(records@),
    ensures
        out@ == suppress_spec(views_of(records@), *cfg),
        out@.len() <= records@.len(),
        forall|i: int, j: int|
            0 <= i < j < out@.len() ==> (#[trigger] out@[i]).score_ppm >= (#[trigger] out@[j]).score_ppm,
        forall|i: int, j: int|
            0 <= i < out@.len() && 0 <= j < out@.len() && i != j && (#[trigger] out@[i]).class_id
                == (#[trigger] out@[j]).class_id ==> !iou_exceeds(out@[i].rect, out@[j].rect, cfg.iou_ppm),
        forall|i: int| 0 <= i < out@.len() ==> (#[trigger] out@[i]).rect.wf(),
        forall|i: int| 0 <= i < out@.len() ==> (#[trigger] out@[i]).score_ppm <= PPM_ONE,
        records@.len() == 0 ==> out@.len() == 0,
{
    let mut cands = classify(records, cfg);
    let ghost cseq = cands@;
    sort_candidates(&mut cands);
    proof {
        lemma_sort_spec_props(cseq);
        lemma_greedy_spec_props(sort_spec(cseq), cfg.iou_ppm);
    }
    let kept = greedy(&cands, cfg.iou_ppm);
    let mut out: Vec<Detection> = Vec::new();
    let m = kept.len();
    let mut i: usize = 0;
    while i < m
        invariant
            m == kept@.len(),
            i <= m,
            out@.len() == i,
            forall|j: int|
                0 <= j < i ==> #[trigger] out@[j] == detections_of(kept@)[j],
        decreases m - i,
    {
        let c = kept[i];
        out.push(Detection { rect: c.rect, score_ppm: c.score_ppm, class_id: c.class });
        i = i + 1;
    }
    proof {
        assert(out@ =~= detections_of(kept@));
        let ks = nms_spec(cseq, cfg.iou_ppm);
        assert(kept@ == ks);
        lemma_classify_len(views_of(records@), *cfg);
        assert forall|a: int, b: int|
            0 <= a < out@.len() && 0 <= b < out@.len() && a != b && (#[trigger] out@[a]).class_id
                == (#[trigger] out@[b]).class_id implies !iou_exceeds(
            out@[a].rect,
            out@[b].rect,
            cfg.iou_ppm,
        ) by {
            assert(out@[a] == detections_of(ks)[a] && out@[b] == detections_of(ks)[b]);
            assert(ks[a].class == ks[b].class);
        }
    }
    out
}

/// The filtered list is never longer than the record list.
proof fn lemma_classify_len(recs: Seq<RecordView>, cfg: SuppressConfig)
    ensures
        classify_spec(recs, cfg).len() <= recs.len(),
    decreases recs.len(),
{
    if recs.len() > 0 {
        lemma_classify_len(recs.drop_last(), cfg);
    }
}

/// The suppressed detection list never exceeds the filtered candidate list,
/// and when no two sorted candidates of one class overlap beyond the IoU
/// threshold at either configuration, raising the objectness or class-score
/// thresholds never yields more detections.
pub proof fn lemma_suppress_threshold_monotone(
    recs: Seq<RecordView>,
    cfg1: SuppressConfig,
    cfg2: SuppressConfig,
)
    requires
        cfg1.objectness_ppm <= cfg2.objectness_ppm,
        cfg1.class_score_ppm <= cfg2.class_score_ppm,
        cfg1.iou_ppm == cfg2.iou_ppm,
        cfg1.coord == cfg2.coord,
        cfg1.activation == cfg2.activation,
        cfg1.extent_x == cfg2.extent_x,
        cfg1.extent_y == cfg2.extent_y,
        pairwise_ok(sort_spec(classify_spec(recs, cfg1)), cfg1.iou_ppm),
        pairwise_ok(sort_spec(classify_spec(recs, cfg2)), cfg2.iou_ppm),
    ensures
        suppress_spec(recs, cfg2).len() <= suppress_spec(recs, cfg1).len(),
{
    lemma_classify_threshold_monotone(recs, cfg1, cfg2);
    lemma_sort_spec_props(classify_spec(recs, cfg1));
    lemma_sort_spec_props(classify_spec(recs, cfg2));
    lemma_greedy_of_pairwise_ok(sort_spec(classify_spec(recs, cfg1)), cfg1.iou_ppm);
    lemma_greedy_of_pairwise_ok(sort_spec(classify_spec(recs, cfg2)), cfg2.iou_ppm);
}

} // verus!
