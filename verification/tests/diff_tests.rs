use jxl_annotate::annotator::{annotate_file, AnnotateOptions, AnnotationResult, ImageSummary};
use jxl_annotate::diff::{compare_annotations, match_checkpoints, DiffConfig, SegmentDiffStatus};
use jxl_annotate::model::{Checkpoint, CheckpointDiff, CheckpointStats, Segment, SegmentKind};

fn result(name: &str, kinds: Vec<SegmentKind>) -> AnnotationResult {
    let image = ImageSummary {
        width: 1,
        height: 1,
        bits_per_sample: 8,
        grayscale: true,
        extra_channel_is_alpha: Vec::new(),
        first_keyframe: None,
        keyframe_blocks: Vec::new(),
        decoded_checkpoints: Vec::new(),
    };
    let mut r = annotate_file(name.to_string(), &[], &image, &AnnotateOptions::default(), "1");
    r.segments = kinds
        .into_iter()
        .map(|kind| Segment { kind, byte_range: (0, 0), bit_range: (0, 0), annotations: Vec::new(), children: Vec::new() })
        .collect();
    r
}

fn config(vardct_only: bool, ignore_container: bool) -> DiffConfig {
    DiffConfig { vardct_only, ignore_container, tolerance: 0.001f64.to_bits() }
}

fn stats() -> CheckpointStats {
    CheckpointStats { min: 0, max: 0, mean: 0, stddev: 0, nonzero_count: 0, total_count: 0 }
}

fn checkpoint(stage: u32, frame_idx: u32, group_idx: u32, channel: u32) -> Checkpoint {
    Checkpoint { stage, frame_idx, group_idx, channel, stats: stats() }
}

fn checkpoint_diff(identical: bool) -> CheckpointDiff {
    CheckpointDiff {
        stage: 0,
        frame_idx: 0,
        group_idx: 0,
        diff_stats: stats(),
        max_abs_diff: 0,
        mean_abs_diff: 0,
        rms_diff: 0,
        identical,
        tolerance: 0,
    }
}

fn sample_a() -> AnnotationResult {
    result(
        "a.jxl",
        vec![
            SegmentKind::Signature,
            SegmentKind::ImageHeader,
            SegmentKind::Container { box_type: "jxlc".to_string() },
        ],
    )
}

fn sample_b() -> AnnotationResult {
    result("b.jxl", vec![SegmentKind::Signature, SegmentKind::HfGlobal { frame_idx: 0 }])
}

#[test]
fn a_file_compared_with_itself_is_identical() {
    let a = sample_a();
    let d = compare_annotations(&a, &a, &config(false, false), Vec::new());
    assert!(d.summary.identical);
    assert_eq!(d.summary.total_segments_a, 3);
    assert_eq!(d.summary.total_segments_b, 3);
    assert_eq!(d.summary.matching_segments, 3);
    assert_eq!(d.summary.missing_in_a, 0);
    assert_eq!(d.summary.missing_in_b, 0);
    assert_eq!(d.summary.different_segments, 0);
    assert!(d.segment_diffs.iter().all(|s| s.status == SegmentDiffStatus::Identical));
    assert_eq!(d.file_a, "a.jxl");
    assert_eq!(d.file_b, "a.jxl");
}

#[test]
fn segments_are_matched_by_kind() {
    let d = compare_annotations(&sample_a(), &sample_b(), &config(false, false), Vec::new());
    assert_eq!(d.file_a, "a.jxl");
    assert_eq!(d.file_b, "b.jxl");
    let kinds: Vec<(&str, &SegmentDiffStatus)> =
        d.segment_diffs.iter().map(|s| (s.segment_kind.as_str(), &s.status)).collect();
    assert_eq!(
        kinds,
        vec![
            ("Signature", &SegmentDiffStatus::Identical),
            ("ImageHeader", &SegmentDiffStatus::OnlyInA),
            ("Container { box_type: \"jxlc\" }", &SegmentDiffStatus::OnlyInA),
            ("HfGlobal { frame_idx: 0 }", &SegmentDiffStatus::OnlyInB),
        ]
    );
    assert!(d.segment_diffs.iter().all(|s| s.details.is_none()));
    assert!(!d.summary.identical);
    assert_eq!(d.summary.total_segments_a, 3);
    assert_eq!(d.summary.total_segments_b, 2);
    assert_eq!(d.summary.matching_segments, 1);
    assert_eq!(d.summary.missing_in_a, 1);
    assert_eq!(d.summary.missing_in_b, 2);
}

#[test]
fn container_boxes_can_be_left_out() {
    let d = compare_annotations(&sample_a(), &sample_b(), &config(false, true), Vec::new());
    assert_eq!(d.summary.total_segments_a, 2);
    assert_eq!(d.summary.missing_in_b, 1);
    assert_eq!(d.segment_diffs.len(), 3);
}

#[test]
fn vardct_only_compares_vardct_segments() {
    let d = compare_annotations(&sample_a(), &sample_b(), &config(true, false), Vec::new());
    assert_eq!(d.summary.total_segments_a, 0);
    assert_eq!(d.summary.total_segments_b, 1);
    assert_eq!(d.summary.missing_in_a, 1);
    assert_eq!(d.segment_diffs.len(), 1);
    assert_eq!(d.segment_diffs[0].segment_kind, "HfGlobal { frame_idx: 0 }");
    assert_eq!(d.segment_diffs[0].status, SegmentDiffStatus::OnlyInB);
    assert!(!d.summary.identical);
}

#[test]
fn segments_only_in_a_keep_the_files_identical() {
    let a = sample_a();
    let b = result("b.jxl", vec![SegmentKind::Signature]);
    let d = compare_annotations(&a, &b, &config(false, false), Vec::new());
    assert_eq!(d.summary.missing_in_b, 2);
    assert_eq!(d.summary.missing_in_a, 0);
    assert!(d.summary.identical);
}

#[test]
fn checkpoint_differences_decide_identity() {
    let a = sample_a();
    let d = compare_annotations(&a, &a, &config(false, false), vec![checkpoint_diff(true), checkpoint_diff(false)]);
    assert!(!d.summary.identical);
    assert_eq!(d.checkpoint_diffs.len(), 2);
    let d = compare_annotations(&a, &a, &config(false, false), vec![checkpoint_diff(true)]);
    assert!(d.summary.identical);
}

#[test]
fn checkpoints_pair_with_first_match() {
    let a = vec![checkpoint(1, 0, 0, 0), checkpoint(2, 0, 3, 1), checkpoint(5, 5, 5, 5)];
    let b = vec![checkpoint(2, 0, 3, 1), checkpoint(1, 0, 0, 0), checkpoint(2, 0, 3, 1), checkpoint(1, 0, 0, 1)];
    assert_eq!(match_checkpoints(&a, &b), vec![(0, 1), (1, 0)]);
    assert!(match_checkpoints(&a, &Vec::new()).is_empty());
}

#[test]
fn checkpoints_compared_with_themselves_pair_up() {
    let cps = vec![checkpoint(1, 0, 0, 0), checkpoint(1, 0, 0, 1), checkpoint(2, 3, 4, 5)];
    assert_eq!(match_checkpoints(&cps, &cps), vec![(0, 0), (1, 1), (2, 2)]);
}
