//! Comparing the segment structure of two annotated files.

use vstd::prelude::*;
use crate::annotator::AnnotationResult;
use crate::debug::{kind_debug, kind_debug_string};
use crate::model::{Checkpoint, CheckpointDiff, Segment, SegmentKind};

verus! {

/// Configuration for diff comparison.
#[derive(Debug)]
pub struct DiffConfig {
    pub vardct_only: bool,
    pub ignore_container: bool,
    /// Tolerance for comparing checkpoint values, as the bit pattern of the
    /// `f64`
    pub tolerance: u64,
}

/// Result of comparing two JXL files.
#[derive(Debug)]
pub struct DiffResult {
    pub file_a: String,
    pub file_b: String,
    pub summary: DiffSummary,
    pub segment_diffs: Vec<SegmentDiff>,
    pub checkpoint_diffs: Vec<CheckpointDiff>,
}

/// Summary of differences.
#[derive(Debug)]
pub struct DiffSummary {
    pub identical: bool,
    pub total_segments_a: usize,
    pub total_segments_b: usize,
    pub matching_segments: usize,
    pub different_segments: usize,
    pub missing_in_a: usize,
    pub missing_in_b: usize,
}

/// Difference in a segment.
#[derive(Debug)]
pub struct SegmentDiff {
    pub segment_kind: String,
    pub status: SegmentDiffStatus,
    pub details: Option<String>,
}

#[derive(Debug, PartialEq, Eq)]
pub enum SegmentDiffStatus {
    Identical,
    Different,
    OnlyInA,
    OnlyInB,
}

/// Whether a segment of this kind takes part in the comparison.
pub open spec fn is_compared(config: DiffConfig, kind: SegmentKind) -> bool {
    &&& !config.ignore_container || !(kind is Container)
    &&& !config.vardct_only || (kind is HfMetadata || kind is HfCoeff || kind is HfGlobal)
}

/// The `Debug` texts of the kinds of the compared segments, in order.
pub open spec fn compared_kinds(segments: Seq<Segment>, config: DiffConfig) -> Seq<Seq<char>>
    decreases segments.len(),
{
    if segments.len() == 0 {
        Seq::empty()
    } else {
        let r = compared_kinds(segments.drop_last(), config);
        if is_compared(config, segments.last().kind) {
            r.push(kind_debug(segments.last().kind))
        } else {
            r
        }
    }
}

/// The entries of `xs` that `ys` also holds, in order.
pub open spec fn found_in(xs: Seq<Seq<char>>, ys: Seq<Seq<char>>) -> Seq<Seq<char>>
    decreases xs.len(),
{
    if xs.len() == 0 {
        Seq::empty()
    } else {
        let r = found_in(xs.drop_last(), ys);
        if ys.contains(xs.last()) { r.push(xs.last()) } else { r }
    }
}

/// The entries of `xs` that `ys` does not hold, in order.
pub open spec fn missing_from(xs: Seq<Seq<char>>, ys: Seq<Seq<char>>) -> Seq<Seq<char>>
    decreases xs.len(),
{
    if xs.len() == 0 {
        Seq::empty()
    } else {
        let r = missing_from(xs.drop_last(), ys);
        if ys.contains(xs.last()) { r } else { r.push(xs.last()) }
    }
}

/// The status of a segment of A: identical when B has a segment of the same
/// kind, only in A otherwise.
pub open spec fn status_in_a(k: Seq<char>, kb: Seq<Seq<char>>) -> SegmentDiffStatus {
    if kb.contains(k) { SegmentDiffStatus::Identical } else { SegmentDiffStatus::OnlyInA }
}

/// Whether every checkpoint difference is within tolerance.
pub open spec fn all_identical(diffs: Seq<CheckpointDiff>) -> bool {
    forall|i: int| 0 <= i < diffs.len() ==> #[trigger] diffs[i].identical
}

/// The `Debug` texts of the kinds of the compared segments.
fn compared_kind_texts(segments: &Vec<Segment>, config: &DiffConfig) -> (r: Vec<String>)
    ensures
        r@.len() == compared_kinds(segments@, *config).len(),
        forall|i: int| 0 <= i < r@.len() ==> #[trigger] r@[i]@ == compared_kinds(segments@, *config)[i],
{
    let mut out: Vec<String> = Vec::new();
    let n = segments.len();
    let mut i: usize = 0;
    while i < n
        invariant
            n == segments@.len(),
            i <= n,
            out@.len() == compared_kinds(segments@.take(i as int), *config).len(),
            forall|j: int| 0 <= j < out@.len() ==> #[trigger] out@[j]@ == compared_kinds(segments@.take(i as int), *config)[j],
        decreases n - i,
    {
        assert(segments@.take(i + 1).drop_last() =~= segments@.take(i as int));
        let kind = &segments[i].kind;
        let keep_container = match kind {
            SegmentKind::Container { .. } => false,
            _ => true,
        };
        let vardct = match kind {
            SegmentKind::HfMetadata { .. } | SegmentKind::HfCoeff { .. } | SegmentKind::HfGlobal { .. } => true,
            _ => false,
        };
        if (!config.ignore_container || keep_container) && (!config.vardct_only || vardct) {
            out.push(kind_debug_string(kind));
        }
        i = i + 1;
    }
    assert(segments@.take(n as int) =~= segments@);
    out
}

/// Whether `ys` holds a string with the same characters as `x`.
fn contains_text(ys: &Vec<String>, x: &String) -> (r: bool)
    ensures
        r == ys@.map_values(|y: String| y@).contains(x@),
{
    let ghost v = ys@.map_values(|y: String| y@);
    let n = ys.len();
    let mut i: usize = 0;
    while i < n
        invariant
            n == ys@.len(),
            v == ys@.map_values(|y: String| y@),
            i <= n,
            forall|j: int| 0 <= j < i ==> v[j] != x@,
        decreases n - i,
    {
        if ys[i] == *x {
            assert(v[i as int] == x@);
            return true;
        }
        i = i + 1;
    }
    proof {
        if v.contains(x@) {
            let j = choose|j: int| 0 <= j < v.len() && v[j] == x@;
            assert(false);
        }
    }
    false
}

/// Compare two annotation results: the compared segments (all of them, or
/// only VarDCT ones, and leaving out container boxes when asked) are matched
/// by the `Debug` text of their kind; `checkpoint_diffs` are the differences
/// of the matching checkpoints.
pub fn compare_annotations(
    result_a: &AnnotationResult,
    result_b: &AnnotationResult,
    config: &DiffConfig,
    checkpoint_diffs: Vec<CheckpointDiff>,
) -> (r: DiffResult)
    ensures
        ({
            let ka = compared_kinds(result_a.segments@, *config);
            let kb = compared_kinds(result_b.segments@, *config);
            &&& r.file_a == result_a.manifest.source_file
            &&& r.file_b == result_b.manifest.source_file
            &&& r.segment_diffs@.len() == ka.len() + missing_from(kb, ka).len()
            &&& forall|i: int| #![trigger r.segment_diffs@[i]] 0 <= i < ka.len() ==> r.segment_diffs@[i].segment_kind@ == ka[i]
                && r.segment_diffs@[i].status == status_in_a(ka[i], kb)
            &&& forall|i: int| #![trigger r.segment_diffs@[ka.len() + i]] 0 <= i < missing_from(kb, ka).len() ==> {
                &&& r.segment_diffs@[ka.len() + i].segment_kind@ == missing_from(kb, ka)[i]
                &&& r.segment_diffs@[ka.len() + i].status == SegmentDiffStatus::OnlyInB
            }
            &&& forall|i: int| 0 <= i < r.segment_diffs@.len() ==> #[trigger] r.segment_diffs@[i].details is None
            &&& r.checkpoint_diffs == checkpoint_diffs
            &&& r.summary.total_segments_a == ka.len()
            &&& r.summary.total_segments_b == kb.len()
            &&& r.summary.matching_segments == found_in(ka, kb).len()
            &&& r.summary.different_segments == 0
            &&& r.summary.missing_in_a == missing_from(kb, ka).len()
            &&& r.summary.missing_in_b == ka.len() - found_in(ka, kb).len()
            &&& r.summary.identical == (missing_from(kb, ka).len() == 0 && all_identical(checkpoint_diffs@))
        }),
{
    let ghost ka = compared_kinds(result_a.segments@, *config);
    let ghost kb = compared_kinds(result_b.segments@, *config);
    let segments_a = compared_kind_texts(&result_a.segments, config);
    let segments_b = compared_kind_texts(&result_b.segments, config);
    assert(segments_a@.map_values(|y: String| y@) =~= ka);
    assert(segments_b@.map_values(|y: String| y@) =~= kb);

    let mut segment_diffs: Vec<SegmentDiff> = Vec::new();
    let mut matching: usize = 0;
    let different: usize = 0;

    // Simple comparison: check if segment kinds match
    let na = segments_a.len();
    let mut i: usize = 0;
    while i < na
        invariant
            na == segments_a@.len() == ka.len(),
            forall|j: int| 0 <= j < na ==> #[trigger] segments_a@[j]@ == ka[j],
            segments_b@.map_values(|y: String| y@) == kb,
            i <= na,
            matching == found_in(ka.take(i as int), kb).len(),
            segment_diffs@.len() == i,
            forall|j: int| #![trigger segment_diffs@[j]] 0 <= j < i ==> segment_diffs@[j].segment_kind@ == ka[j]
                && segment_diffs@[j].status == status_in_a(ka[j], kb),
            forall|j: int| 0 <= j < segment_diffs@.len() ==> #[trigger] segment_diffs@[j].details is None,
            matching <= i,
        decreases na - i,
    {
        assert(ka.take(i + 1).drop_last() =~= ka.take(i as int));
        let kind_str = segments_a[i].clone();
        let found = contains_text(&segments_b, &kind_str);
        assert(found == kb.contains(ka[i as int]));
        assert(ka.take(i + 1).last() == ka[i as int]);
        let ghost before = segment_diffs@;
        if found {
            segment_diffs.push(SegmentDiff { segment_kind: kind_str, status: SegmentDiffStatus::Identical, details: None });
            matching = matching + 1;
        } else {
            segment_diffs.push(SegmentDiff { segment_kind: kind_str, status: SegmentDiffStatus::OnlyInA, details: None });
        }
        assert(segment_diffs@.len() == i + 1);
        assert(segments_a@[i as int]@ == ka[i as int]);
        assert(segment_diffs@[i as int].segment_kind@ == ka[i as int]);
        assert(segment_diffs@[i as int].status == status_in_a(ka[i as int], kb));
        assert forall|j: int| #![trigger segment_diffs@[j]] 0 <= j < i + 1 implies segment_diffs@[j].segment_kind@ == ka[j]
            && segment_diffs@[j].status == status_in_a(ka[j], kb) by {
            if j < i {
                assert(segment_diffs@[j] == before[j]);
            }
        }
        i = i + 1;
    }
    assert(ka.take(na as int) =~= ka);
    let ghost from_a = segment_diffs@;

    // Check for segments only in B
    let mut missing_in_a: usize = 0;
    let nb = segments_b.len();
    let mut k: usize = 0;
    while k < nb
        invariant
            nb == segments_b@.len() == kb.len(),
            forall|j: int| 0 <= j < nb ==> #[trigger] segments_b@[j]@ == kb[j],
            segments_a@.map_values(|y: String| y@) == ka,
            k <= nb,
            missing_in_a == missing_from(kb.take(k as int), ka).len(),
            missing_in_a <= k,
            from_a.len() == na,
            segment_diffs@.len() == na + missing_in_a,
            forall|j: int| 0 <= j < na ==> #[trigger] segment_diffs@[j] == from_a[j],
            forall|j: int| #![trigger segment_diffs@[na + j]] 0 <= j < missing_in_a ==> {
                &&& segment_diffs@[na + j].segment_kind@ == missing_from(kb.take(k as int), ka)[j]
                &&& segment_diffs@[na + j].status == SegmentDiffStatus::OnlyInB
            },
            forall|j: int| 0 <= j < segment_diffs@.len() ==> #[trigger] segment_diffs@[j].details is None,
        decreases nb - k,
    {
        assert(kb.take(k + 1).drop_last() =~= kb.take(k as int));
        let found = contains_text(&segments_a, &segments_b[k]);
        assert(kb.take(k + 1).last() == kb[k as int]);
        assert(found == ka.contains(kb[k as int]));
        let ghost before = segment_diffs@;
        let ghost old_missing = missing_from(kb.take(k as int), ka);
        if !found {
            segment_diffs.push(SegmentDiff {
                segment_kind: segments_b[k].clone(),
                status: SegmentDiffStatus::OnlyInB,
                details: None,
            });
            missing_in_a = missing_in_a + 1;
        }
        assert forall|j: int| #![trigger segment_diffs@[na + j]] 0 <= j < missing_in_a implies {
            &&& segment_diffs@[na + j].segment_kind@ == missing_from(kb.take(k + 1), ka)[j]
            &&& segment_diffs@[na + j].status == SegmentDiffStatus::OnlyInB
        } by {
            if j < old_missing.len() {
                assert(segment_diffs@[na + j] == before[na + j]);
            }
        }
        assert forall|j: int| 0 <= j < na implies #[trigger] segment_diffs@[j] == from_a[j] by {
            assert(segment_diffs@[j] == before[j]);
        }
        k = k + 1;
    }
    assert(kb.take(nb as int) =~= kb);

    let mut all_cp = true;
    let nc = checkpoint_diffs.len();
    let mut c: usize = 0;
    while c < nc
        invariant
            nc == checkpoint_diffs@.len(),
            c <= nc,
            all_cp == forall|j: int| 0 <= j < c ==> #[trigger] checkpoint_diffs@[j].identical,
        decreases nc - c,
    {
        if !checkpoint_diffs[c].identical {
            all_cp = false;
        }
        c = c + 1;
    }

    let summary = DiffSummary {
        identical: different == 0 && missing_in_a == 0 && all_cp,
        total_segments_a: na,
        total_segments_b: nb,
        matching_segments: matching,
        different_segments: different,
        missing_in_a,
        missing_in_b: na - matching,
    };

    DiffResult {
        file_a: result_a.manifest.source_file.clone(),
        file_b: result_b.manifest.source_file.clone(),
        summary,
        segment_diffs,
        checkpoint_diffs,
    }
}

/// The checkpoints compared with one another: for each checkpoint of A, in
/// order, the first checkpoint of B at the same stage, frame, group and
/// channel, if any.
pub open spec fn same_place(a: Checkpoint, b: Checkpoint) -> bool {
    &&& a.stage == b.stage
    &&& a.frame_idx == b.frame_idx
    &&& a.group_idx == b.group_idx
    &&& a.channel == b.channel
}

/// The index of the first checkpoint of `b` at the place of `a`, if any.
pub open spec fn first_match(a: Checkpoint, b: Seq<Checkpoint>) -> Option<int> {
    if exists|j: int| 0 <= j < b.len() && same_place(a, #[trigger] b[j]) {
        Some(choose|j: int| 0 <= j < b.len() && same_place(a, #[trigger] b[j])
            && forall|m: int| 0 <= m < j ==> !same_place(a, #[trigger] b[m]))
    } else {
        None
    }
}

/// The pairs of checkpoints to compare: for each checkpoint of A that B has
/// at the same place, in order of A, its index and the index of the first
/// such checkpoint of B.
pub open spec fn matched_pairs(a: Seq<Checkpoint>, b: Seq<Checkpoint>) -> Seq<(int, int)>
    decreases a.len(),
{
    if a.len() == 0 {
        Seq::empty()
    } else {
        let r = matched_pairs(a.drop_last(), b);
        match first_match(a.last(), b) {
            Some(j) => r.push((a.len() - 1, j)),
            None => r,
        }
    }
}

/// Pairs each checkpoint of A with the first checkpoint of B at the same
/// stage, frame, group and channel.
pub fn match_checkpoints(checkpoints_a: &Vec<Checkpoint>, checkpoints_b: &Vec<Checkpoint>) -> (r: Vec<(usize, usize)>)
    ensures
        r@.map_values(|p: (usize, usize)| (p.0 as int, p.1 as int)) == matched_pairs(checkpoints_a@, checkpoints_b@),
{
    let mut pairs: Vec<(usize, usize)> = Vec::new();
    let na = checkpoints_a.len();
    let nb = checkpoints_b.len();
    let mut i: usize = 0;
    while i < na
        invariant
            na == checkpoints_a@.len(),
            nb == checkpoints_b@.len(),
            i <= na,
            pairs@.map_values(|p: (usize, usize)| (p.0 as int, p.1 as int))
                == matched_pairs(checkpoints_a@.take(i as int), checkpoints_b@),
        decreases na - i,
    {
        let cp_a = &checkpoints_a[i];
        let mut j: usize = 0;
        let mut found: Option<usize> = None;
        while j < nb
            invariant
                nb == checkpoints_b@.len(),
                j <= nb,
                found matches Some(x) ==> x < nb && same_place(*cp_a, checkpoints_b@[x as int])
                    && forall|m: int| 0 <= m < x ==> !same_place(*cp_a, #[trigger] checkpoints_b@[m]),
                found is None ==> forall|m: int| 0 <= m < j ==> !same_place(*cp_a, #[trigger] checkpoints_b@[m]),
            decreases nb - j,
        {
            let cp_b = &checkpoints_b[j];
            if found.is_none() && cp_a.stage == cp_b.stage && cp_a.frame_idx == cp_b.frame_idx
                && cp_a.group_idx == cp_b.group_idx && cp_a.channel == cp_b.channel {
                found = Some(j);
            }
            j = j + 1;
        }
        assert(checkpoints_a@.take(i + 1).drop_last() =~= checkpoints_a@.take(i as int));
        assert(checkpoints_a@.take(i + 1).last() == *cp_a);
        let ghost before = pairs@;
        match found {
            Some(j) => {
                proof {
                    assert(same_place(*cp_a, checkpoints_b@[j as int]));
                    let fm = first_match(*cp_a, checkpoints_b@);
                    assert(fm is Some);
                    let w = fm->0;
                    if w < j {
                        assert(!same_place(*cp_a, checkpoints_b@[w]));
                    } else if w > j {
                        assert(!same_place(*cp_a, checkpoints_b@[j as int]));
                    }
                }
                pairs.push((i, j));
                assert(pairs@.map_values(|p: (usize, usize)| (p.0 as int, p.1 as int))
                    =~= before.map_values(|p: (usize, usize)| (p.0 as int, p.1 as int)).push((i as int, j as int)));
            },
            None => {
                assert(first_match(*cp_a, checkpoints_b@) is None);
            },
        }
        i = i + 1;
    }
    assert(checkpoints_a@.take(na as int) =~= checkpoints_a@);
    pairs
}

/// Every entry of `xs` is either found in `ys` or missing from it.
pub proof fn lemma_found_and_missing_partition(xs: Seq<Seq<char>>, ys: Seq<Seq<char>>)
    ensures
        found_in(xs, ys).len() + missing_from(xs, ys).len() == xs.len(),
    decreases xs.len(),
{
    if xs.len() > 0 {
        lemma_found_and_missing_partition(xs.drop_last(), ys);
    }
}

/// Entries that all occur in `ys` are all found and none is missing.
proof fn lemma_all_found(xs: Seq<Seq<char>>, ys: Seq<Seq<char>>)
    requires
        forall|i: int| 0 <= i < xs.len() ==> ys.contains(#[trigger] xs[i]),
    ensures
        found_in(xs, ys) == xs,
        missing_from(xs, ys).len() == 0,
    decreases xs.len(),
{
    if xs.len() > 0 {
        let p = xs.drop_last();
        assert forall|i: int| 0 <= i < p.len() implies ys.contains(#[trigger] p[i]) by {
            assert(p[i] == xs[i]);
        }
        lemma_all_found(p, ys);
        assert(ys.contains(xs[xs.len() - 1]));
        assert(p.push(xs.last()) =~= xs);
    }
}

/// A file compared with itself: every compared segment is found in the
/// other file with the status `Identical`, all of them match, none is
/// missing on either side, so the files are identical exactly when their
/// checkpoints are.
pub proof fn lemma_compare_with_itself(segments: Seq<Segment>, config: DiffConfig)
    ensures
        ({
            let k = compared_kinds(segments, config);
            &&& found_in(k, k).len() == k.len()
            &&& missing_from(k, k).len() == 0
            &&& k.len() - found_in(k, k).len() == 0
            &&& forall|i: int| 0 <= i < k.len() ==> status_in_a(#[trigger] k[i], k) == SegmentDiffStatus::Identical
        }),
{
    let k = compared_kinds(segments, config);
    assert forall|i: int| 0 <= i < k.len() implies k.contains(#[trigger] k[i]) by {}
    lemma_all_found(k, k);
}

/// The segments of A missing from B are those of A that do not match:
/// `missing_in_b` counts the kinds of A that B lacks, so comparing B with A
/// reports as missing in A what comparing A with B reports as missing in B.
pub proof fn lemma_missing_in_b_counts_kinds_b_lacks(ka: Seq<Seq<char>>, kb: Seq<Seq<char>>)
    ensures
        ka.len() - found_in(ka, kb).len() == missing_from(ka, kb).len(),
        found_in(ka, kb).len() <= ka.len(),
{
    lemma_found_and_missing_partition(ka, kb);
}

/// Checkpoints at pairwise different places.
pub open spec fn distinct_places(cps: Seq<Checkpoint>) -> bool {
    forall|i: int, j: int| 0 <= i < j < cps.len() ==> !same_place(#[trigger] cps[i], #[trigger] cps[j])
}

/// The checkpoints of a file compared with themselves, when no two share a
/// place: each is paired with itself, in order, so every checkpoint is
/// compared.
pub proof fn lemma_checkpoints_match_themselves(cps: Seq<Checkpoint>)
    requires
        distinct_places(cps),
    ensures
        matched_pairs(cps, cps).len() == cps.len(),
        forall|i: int| 0 <= i < cps.len() ==> #[trigger] matched_pairs(cps, cps)[i] == (i, i),
{
    lemma_prefix_matches_itself(cps, cps.len() as int);
    assert(cps.take(cps.len() as int) =~= cps);
}

proof fn lemma_prefix_matches_itself(cps: Seq<Checkpoint>, n: int)
    requires
        distinct_places(cps),
        0 <= n <= cps.len(),
    ensures
        matched_pairs(cps.take(n), cps).len() == n,
        forall|i: int| 0 <= i < n ==> #[trigger] matched_pairs(cps.take(n), cps)[i] == (i, i),
    decreases n,
{
    if n > 0 {
        let i = n - 1;
        lemma_prefix_matches_itself(cps, i);
        let a = cps.take(n);
        assert(a.drop_last() =~= cps.take(i));
        assert(a.last() == cps[i]);
        let x = cps[i];
        assert forall|m: int| 0 <= m < i implies !same_place(x, #[trigger] cps[m]) by {
            assert(!same_place(cps[m], cps[i]));
        }
        assert(same_place(x, cps[i]));
        assert(exists|j: int| 0 <= j < cps.len() && same_place(x, #[trigger] cps[j])
            && forall|m: int| 0 <= m < j ==> !same_place(x, #[trigger] cps[m]));
        let j = choose|j: int| 0 <= j < cps.len() && same_place(x, #[trigger] cps[j])
            && forall|m: int| 0 <= m < j ==> !same_place(x, #[trigger] cps[m]);
        if j < i {
            assert(!same_place(cps[j], cps[i]));
        } else if j > i {
            assert(!same_place(x, cps[i]));
        }
        assert(first_match(x, cps) == Some(i));
    }
}


/// The kinds taken into a comparison are those of the segments that pass the
/// configuration's filters, in order: with `vardct_only`, exactly the
/// segments of VarDCT metadata, HF coefficients and HF global data; with
/// `ignore_container`, all segments but container boxes.
pub proof fn lemma_compared_segments(segments: Seq<Segment>, config: DiffConfig)
    ensures
        compared_kinds(segments, config) == segments.filter(|s: Segment|
            (!config.ignore_container || !(s.kind is Container))
                && (!config.vardct_only || s.kind is HfMetadata || s.kind is HfCoeff || s.kind is HfGlobal)).map_values(
            |s: Segment| kind_debug(s.kind),
        ),
    decreases segments.len(),
{
    let keep = |s: Segment|
        (!config.ignore_container || !(s.kind is Container))
            && (!config.vardct_only || s.kind is HfMetadata || s.kind is HfCoeff || s.kind is HfGlobal);
    let text = |s: Segment| kind_debug(s.kind);
    reveal(Seq::filter);
    if segments.len() == 0 {
        assert(segments.filter(keep) =~= Seq::<Segment>::empty());
        assert(segments.filter(keep).map_values(text) =~= Seq::<Seq<char>>::empty());
    } else {
        lemma_compared_segments(segments.drop_last(), config);
        let f = segments.drop_last().filter(keep);
        if keep(segments.last()) {
            assert(segments.filter(keep) == f.push(segments.last()));
            assert(f.push(segments.last()).map_values(text) =~= f.map_values(text).push(text(segments.last())));
        } else {
            assert(segments.filter(keep) == f);
        }
    }
}

/// With `vardct_only`, every segment of VarDCT metadata, HF coefficients or
/// HF global data takes part in the comparison, and no other segment does:
/// the compared kinds are as many as those segments.
pub proof fn lemma_vardct_only_keeps_vardct_segments(segments: Seq<Segment>, config: DiffConfig, i: int)
    requires
        config.vardct_only,
        0 <= i < segments.len(),
        segments[i].kind is HfMetadata || segments[i].kind is HfCoeff || segments[i].kind is HfGlobal,
    ensures
        compared_kinds(segments, config).contains(kind_debug(segments[i].kind)),
    decreases segments.len(),
{
    if i < segments.len() - 1 {
        lemma_vardct_only_keeps_vardct_segments(segments.drop_last(), config, i);
        let r = compared_kinds(segments.drop_last(), config);
        let j = choose|j: int| 0 <= j < r.len() && r[j] == kind_debug(segments[i].kind);
        if is_compared(config, segments.last().kind) {
            assert(r.push(kind_debug(segments.last().kind))[j] == r[j]);
        }
    } else {
        let r = compared_kinds(segments.drop_last(), config);
        assert(segments.last().kind is HfMetadata || segments.last().kind is HfCoeff || segments.last().kind is HfGlobal);
        assert(r.push(kind_debug(segments.last().kind))[r.len() as int] == kind_debug(segments[i].kind));
    }
}

} // verus!
