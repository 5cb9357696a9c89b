use jxl_annotate::annotator::{
    annotate_file, collect_checkpoints, create_basic_segments, get_vardct_block_info, AnnotateOptions,
    FrameSummary, ImageSummary, KeyframeBlocks,
};
use jxl_annotate::inspect::{inspect_options, run_inspect};
use jxl_annotate::model::{AnnotatedValue, Checkpoint, CheckpointStats, EncodingType, SegmentKind, VarBlockAnnotation};

fn image(first_keyframe: Option<FrameSummary>) -> ImageSummary {
    ImageSummary {
        width: 640,
        height: 480,
        bits_per_sample: 8,
        grayscale: false,
        extra_channel_is_alpha: vec![false, true],
        first_keyframe,
        keyframe_blocks: Vec::new(),
        decoded_checkpoints: Vec::new(),
    }
}

fn vardct_frame() -> FrameSummary {
    FrameSummary { vardct: true, width: 640, height: 480, num_lf_groups: 2, num_passes: 2, num_groups: 3 }
}

#[test]
fn default_options() {
    let o = AnnotateOptions::default();
    assert!(!o.include_ans);
    assert!(!o.include_checkpoints);
    assert_eq!(o.max_depth, 10);
    assert!(o.frame_filter.is_none());
}

#[test]
fn manifest_holds_size_and_sha256() {
    let img = image(None);
    let r = annotate_file("input.jxl".to_string(), b"abc", &img, &AnnotateOptions::default(), "0.1.0");
    assert_eq!(r.manifest.version, 1);
    assert_eq!(r.manifest.tool, "jxl-annotate 0.1.0");
    assert_eq!(r.manifest.source_file, "input.jxl");
    assert_eq!(r.manifest.source_size, 3);
    assert_eq!(
        r.manifest.source_sha256.as_deref(),
        Some("ba7816bf8f01cfea414140de5dae2223b00361a396177a9cb410ff61f20015ad")
    );
    assert!(r.manifest.segment_files.is_empty());
    assert!(r.checkpoints.is_empty());
    assert!(r.vardct_annotations.is_empty());
}

#[test]
fn sha256_of_empty_input() {
    let img = image(None);
    let r = annotate_file("empty.jxl".to_string(), &[], &img, &AnnotateOptions::default(), "x");
    assert_eq!(r.manifest.source_size, 0);
    assert_eq!(
        r.manifest.source_sha256.as_deref(),
        Some("e3b0c44298fc1c149afbf4c8996fb92427ae41e4649b934ca495991b7852b855")
    );
}

#[test]
fn image_info_counts_channels_and_alpha() {
    let img = image(None);
    let r = annotate_file("a.jxl".to_string(), &[0xFF, 0x0A], &img, &AnnotateOptions::default(), "1");
    let info = &r.manifest.image;
    assert_eq!(info.width, 640);
    assert_eq!(info.height, 480);
    assert_eq!(info.bit_depth, 8);
    assert_eq!(info.num_channels, 5);
    assert!(info.has_alpha);
    assert!(info.color_space.is_none());
    assert!(r.manifest.frames.is_empty());

    let gray = ImageSummary {
        width: 1,
        height: 1,
        bits_per_sample: 16,
        grayscale: true,
        extra_channel_is_alpha: vec![false],
        first_keyframe: None,
        keyframe_blocks: Vec::new(),
        decoded_checkpoints: Vec::new(),
    };
    let r = annotate_file("g.jxl".to_string(), &[], &gray, &AnnotateOptions::default(), "1");
    assert_eq!(r.manifest.image.num_channels, 2);
    assert!(!r.manifest.image.has_alpha);
}

#[test]
fn frame_info_of_first_keyframe() {
    let img = image(Some(FrameSummary { vardct: false, width: 64, height: 32, num_lf_groups: 1, num_passes: 1, num_groups: 1 }));
    let r = annotate_file("m.jxl".to_string(), &[], &img, &AnnotateOptions::default(), "1");
    assert_eq!(r.manifest.frames.len(), 1);
    let f = &r.manifest.frames[0];
    assert_eq!(f.index, 0);
    assert_eq!(f.encoding, "Modular");
    assert_eq!(f.width, 64);
    assert_eq!(f.height, 32);
    assert_eq!(f.num_lf_groups, 1);
    assert_eq!(f.num_passes, 1);
}

#[test]
fn basic_segments_without_frame() {
    let segs = create_basic_segments(&image(None), &AnnotateOptions::default());
    assert_eq!(segs.len(), 2);
    assert!(matches!(segs[0].kind, SegmentKind::Signature));
    assert_eq!(segs[0].byte_range, (0, 2));
    assert_eq!(segs[0].bit_range, (0, 16));
    let sig = &segs[0].annotations[0];
    assert_eq!(sig.field_name, "signature");
    assert!(matches!(sig.value, AnnotatedValue::U32(0x0AFF)));
    assert!(matches!(sig.encoding, EncodingType::Bits { n: 16 }));
    assert_eq!(sig.spec_ref.as_deref(), Some("ISO 18181-1:2022 A.4.1"));
    assert!(matches!(segs[1].kind, SegmentKind::ImageHeader));
    assert_eq!(segs[1].bit_range, (16, 0));
    let div8 = &segs[1].annotations[0];
    assert_eq!(div8.path, "ImageHeader.size");
    assert_eq!(div8.field_name, "div8");
    assert_eq!(div8.bit_start, 16);
    assert_eq!(div8.bit_length, 1);
    assert!(matches!(div8.value, AnnotatedValue::Bool(false)));
}

#[test]
fn basic_segments_of_vardct_frame() {
    let segs = create_basic_segments(&image(Some(vardct_frame())), &AnnotateOptions::default());
    // signature, image header, frame header, 2 LF groups, 2 passes x 3 groups
    assert_eq!(segs.len(), 2 + 1 + 2 + 6);
    match &segs[2].kind {
        SegmentKind::FrameHeader { frame_idx, encoding } => {
            assert_eq!(*frame_idx, 0);
            assert_eq!(encoding, "VarDct");
        }
        _ => panic!("expected a frame header"),
    }
    assert!(matches!(segs[3].kind, SegmentKind::HfMetadata { frame_idx: 0, lf_group_idx: 0 }));
    assert!(matches!(segs[4].kind, SegmentKind::HfMetadata { frame_idx: 0, lf_group_idx: 1 }));
    let expected = [(0, 0), (0, 1), (0, 2), (1, 0), (1, 1), (1, 2)];
    for (k, (p, g)) in expected.iter().enumerate() {
        match &segs[5 + k].kind {
            SegmentKind::HfCoeff { frame_idx, pass_idx, group_idx, ans_symbols_file } => {
                assert_eq!(*frame_idx, 0);
                assert_eq!(pass_idx, p);
                assert_eq!(group_idx, g);
                assert!(ans_symbols_file.is_none());
            }
            _ => panic!("expected HF coefficients"),
        }
        assert_eq!(segs[5 + k].bit_range, (0, 0));
        assert!(segs[5 + k].annotations.is_empty());
    }
}

#[test]
fn modular_frame_has_only_its_header() {
    let img = image(Some(FrameSummary { vardct: false, width: 8, height: 8, num_lf_groups: 4, num_passes: 1, num_groups: 4 }));
    let segs = create_basic_segments(&img, &AnnotateOptions::default());
    assert_eq!(segs.len(), 3);
    match &segs[2].kind {
        SegmentKind::FrameHeader { encoding, .. } => assert_eq!(encoding, "Modular"),
        _ => panic!("expected a frame header"),
    }
}

fn block(dct: &str, x: u32) -> VarBlockAnnotation {
    VarBlockAnnotation {
        block_x: x,
        block_y: 0,
        dct_select: dct.to_string(),
        size_blocks: (1, 1),
        size_pixels: (8, 8),
        hf_mul: 3,
        x_from_y: Some(-1),
        b_from_y: None,
        epf_sigma: Some(1.5f32.to_bits()),
    }
}

fn checkpoint(stage: u32) -> Checkpoint {
    Checkpoint {
        stage,
        frame_idx: 0,
        group_idx: 1,
        channel: 2,
        stats: CheckpointStats { min: 0, max: 1, mean: 2, stddev: 3, nonzero_count: 4, total_count: 5 },
    }
}

#[test]
fn block_info_of_each_keyframe() {
    let mut img = image(Some(vardct_frame()));
    img.keyframe_blocks = vec![
        KeyframeBlocks { vardct: true, varblocks: vec![block("DCT8", 0), block("DCT16", 1)] },
        KeyframeBlocks { vardct: false, varblocks: vec![block("DCT8", 7)] },
    ];
    let first = get_vardct_block_info(&img, 0);
    assert_eq!(first.len(), 2);
    assert_eq!(first[0].dct_select, "DCT8");
    assert_eq!(first[1].dct_select, "DCT16");
    assert_eq!(first[1].block_x, 1);
    assert_eq!(first[0].x_from_y, Some(-1));
    assert_eq!(first[0].epf_sigma, Some(1.5f32.to_bits()));
    // A Modular keyframe and a missing keyframe have no VarDCT blocks.
    assert!(get_vardct_block_info(&img, 1).is_empty());
    assert!(get_vardct_block_info(&img, 2).is_empty());
}

#[test]
fn checkpoints_are_those_decoding_captured() {
    let mut img = image(Some(vardct_frame()));
    img.decoded_checkpoints = vec![checkpoint(1), checkpoint(4)];
    let with = AnnotateOptions { include_ans: true, include_checkpoints: true, max_depth: 3, frame_filter: None };
    let got = collect_checkpoints(&img, &with);
    assert_eq!(got.len(), 2);
    assert_eq!(got[0].stage, 1);
    assert_eq!(got[1].stage, 4);
    assert_eq!(got[1].stats.total_count, 5);
    let r = annotate_file("c.jxl".to_string(), &[], &img, &with, "1");
    assert_eq!(r.checkpoints.len(), 2);
    let r = annotate_file("c.jxl".to_string(), &[], &img, &AnnotateOptions::default(), "1");
    assert!(r.checkpoints.is_empty());
    assert!(collect_checkpoints(&image(None), &with).is_empty());
}

#[test]
fn digest_text_has_sixty_four_digits() {
    let r = annotate_file("d.jxl".to_string(), &[1, 2, 3, 4, 5], &image(None), &AnnotateOptions::default(), "1");
    let h = r.manifest.source_sha256.unwrap();
    assert_eq!(h.len(), 64);
    assert!(h.chars().all(|c| c.is_ascii_digit() || ('a'..='f').contains(&c)));
}

#[test]
fn inspect_options_from_arguments() {
    let filter = [1u32, 3];
    let o = inspect_options(true, false, 4, Some(&filter));
    assert!(o.include_ans);
    assert!(!o.include_checkpoints);
    assert_eq!(o.max_depth, 4);
    assert_eq!(o.frame_filter, Some(vec![1, 3]));
    assert!(inspect_options(false, true, 10, None).frame_filter.is_none());
}

#[test]
fn inspect_lists_segment_files_in_manifest() {
    let img = image(Some(vardct_frame()));
    let r = run_inspect("in.jxl".to_string(), b"abc", &img, false, false, 10, None, "0.2.0");
    assert_eq!(r.manifest.tool, "jxl-annotate 0.2.0");
    assert_eq!(r.segments.len(), 11);
    assert_eq!(r.manifest.segment_files.len(), 11);
    assert_eq!(r.manifest.segment_files[0].path, "segments/signature.json");
    assert_eq!(r.manifest.segment_files[0].kind, "Signature");
    assert_eq!(r.manifest.segment_files[0].bit_range, (0, 16));
    assert_eq!(r.manifest.segment_files[1].path, "segments/image_header.json");
    assert_eq!(r.manifest.segment_files[2].path, "segments/frame_0/header.json");
    assert_eq!(r.manifest.segment_files[2].kind, "FrameHeader(VarDct)");
    assert_eq!(r.manifest.segment_files[4].path, "segments/frame_0/lf_group_1/hf_metadata.json");
    assert_eq!(r.manifest.segment_files[10].path, "segments/frame_0/pass_1/group_2/hf_coeff.json");
    assert_eq!(r.manifest.segment_files[10].kind, "HfCoeff(pass=1, group=2)");
    assert_eq!(
        r.manifest.source_sha256.as_deref(),
        Some("ba7816bf8f01cfea414140de5dae2223b00361a396177a9cb410ff61f20015ad")
    );
}
