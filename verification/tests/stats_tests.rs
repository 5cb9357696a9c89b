use jxl_annotate::model::{HfMetadataAnnotation, VarBlockAnnotation};
use jxl_annotate::stats::{compute_vardct_stats, stats_fit_check};

fn block(dct: &str, hf_mul: i32) -> VarBlockAnnotation {
    VarBlockAnnotation {
        block_x: 0,
        block_y: 0,
        dct_select: dct.to_string(),
        size_blocks: (1, 1),
        size_pixels: (8, 8),
        hf_mul,
        x_from_y: None,
        b_from_y: None,
        epf_sigma: None,
    }
}

fn group(lf_group_idx: u32, num_varblocks: u32, varblocks: Vec<VarBlockAnnotation>) -> HfMetadataAnnotation {
    HfMetadataAnnotation { frame_idx: 0, lf_group_idx, width_blocks: 32, height_blocks: 32, num_varblocks, varblocks }
}

#[test]
fn no_annotations_give_empty_stats() {
    let s = compute_vardct_stats(&[]);
    assert_eq!(s.total_blocks, 0);
    assert!(s.dct_types.is_empty());
    assert_eq!(s.hf_mul_sum, 0);
    assert_eq!(s.hf_mul_min, i32::MAX);
    assert_eq!(s.hf_mul_max, i32::MIN);
}

#[test]
fn counts_sums_and_extremes() {
    let anns = vec![
        group(0, 3, vec![block("DCT8", 5), block("DCT16", 2), block("DCT8", 7)]),
        group(1, 2, vec![block("DCT8", -3), block("IDENTITY", 4)]),
    ];
    let s = compute_vardct_stats(&anns);
    assert_eq!(s.total_blocks, 5);
    assert_eq!(s.hf_mul_sum, 15);
    assert_eq!(s.hf_mul_min, -3);
    assert_eq!(s.hf_mul_max, 7);
    assert_eq!(s.dct_types.len(), 3);
    assert_eq!(s.dct_types[0].dct_type, "DCT8");
    assert_eq!(s.dct_types[0].count, 3);
    let mut rest: Vec<(String, u32)> = s.dct_types[1..].iter().map(|e| (e.dct_type.clone(), e.count)).collect();
    rest.sort();
    assert_eq!(rest, vec![("DCT16".to_string(), 1), ("IDENTITY".to_string(), 1)]);
}

#[test]
fn counts_add_up_to_the_blocks() {
    let anns = vec![group(0, 4, vec![block("A", 1), block("B", 1), block("B", 1), block("C", 1)])];
    let s = compute_vardct_stats(&anns);
    let sum: u32 = s.dct_types.iter().map(|e| e.count).sum();
    assert_eq!(sum, 4);
    assert!(s.dct_types.windows(2).all(|w| w[0].count >= w[1].count));
    assert_eq!(s.dct_types[0].dct_type, "B");
}

#[test]
fn total_is_the_declared_count() {
    // The declared count, not the number of listed blocks, is summed.
    let anns = vec![group(0, 10, vec![block("DCT8", 1)]), group(1, 6, Vec::new())];
    let s = compute_vardct_stats(&anns);
    assert_eq!(s.total_blocks, 16);
    assert_eq!(s.dct_types.len(), 1);
    assert_eq!(s.dct_types[0].count, 1);
}

#[test]
fn extreme_multipliers() {
    let anns = vec![group(0, 2, vec![block("DCT8", i32::MIN), block("DCT8", i32::MAX)])];
    let s = compute_vardct_stats(&anns);
    assert_eq!(s.hf_mul_min, i32::MIN);
    assert_eq!(s.hf_mul_max, i32::MAX);
    assert_eq!(s.hf_mul_sum, -1);
}

#[test]
fn average_lies_between_least_and_greatest() {
    let anns = vec![group(0, 4, vec![block("DCT8", 9), block("DCT8", 2), block("DCT8", 6), block("DCT8", 3)])];
    let s = compute_vardct_stats(&anns);
    assert_eq!((s.hf_mul_min, s.hf_mul_max, s.hf_mul_sum), (2, 9, 20));
    assert!(s.hf_mul_min as i64 * 4 <= s.hf_mul_sum && s.hf_mul_sum <= s.hf_mul_max as i64 * 4);
}

#[test]
fn fit_check_accepts_ordinary_input() {
    assert!(stats_fit_check(&[]));
    let anns = vec![group(0, 3, vec![block("DCT8", i32::MIN), block("DCT8", i32::MAX), block("A", -7)])];
    assert!(stats_fit_check(&anns));
    assert!(stats_fit_check(&[group(0, u32::MAX, Vec::new())]));
}

#[test]
fn fit_check_rejects_an_overflowing_total() {
    let anns = vec![group(0, u32::MAX, vec![block("DCT8", 1)]), group(1, 1, Vec::new())];
    assert!(!stats_fit_check(&anns));
}
