use jxl_annotate::annotator::{annotate_file, AnnotateOptions, ImageSummary};
use jxl_annotate::model::{Checkpoint, CheckpointStats, HfMetadataAnnotation, Segment, SegmentKind};
use jxl_annotate::output::{
    checkpoints_file, segment_file, segment_file_refs, segment_path, vardct_blocks_file, IndexError, SegmentPathError,
};

fn seg(kind: SegmentKind, bit_range: (u64, u64)) -> Segment {
    Segment { kind, byte_range: (0, 0), bit_range, annotations: Vec::new(), children: Vec::new() }
}

fn path_of(kind: SegmentKind) -> (String, String) {
    segment_path(&kind)
}

#[test]
fn segment_paths_of_each_kind() {
    assert_eq!(
        path_of(SegmentKind::Container { box_type: "jxlc".to_string() }),
        ("container_jxlc.json".to_string(), "Container".to_string())
    );
    assert_eq!(path_of(SegmentKind::Signature), ("signature.json".to_string(), "Signature".to_string()));
    assert_eq!(path_of(SegmentKind::ImageHeader), ("image_header.json".to_string(), "ImageHeader".to_string()));
    assert_eq!(
        path_of(SegmentKind::FrameHeader { frame_idx: 3, encoding: "VarDct".to_string() }),
        ("frame_3/header.json".to_string(), "FrameHeader(VarDct)".to_string())
    );
    assert_eq!(path_of(SegmentKind::Toc { frame_idx: 0 }), ("frame_0/toc.json".to_string(), "Toc".to_string()));
    assert_eq!(
        path_of(SegmentKind::LfGlobal { frame_idx: 12 }),
        ("frame_12/lf_global.json".to_string(), "LfGlobal".to_string())
    );
    assert_eq!(
        path_of(SegmentKind::HfGlobal { frame_idx: 7 }),
        ("frame_7/hf_global.json".to_string(), "HfGlobal".to_string())
    );
    assert_eq!(
        path_of(SegmentKind::HfMetadata { frame_idx: 1, lf_group_idx: 42 }),
        ("frame_1/lf_group_42/hf_metadata.json".to_string(), "HfMetadata(lf_group=42)".to_string())
    );
    assert_eq!(
        path_of(SegmentKind::LfCoeff { frame_idx: 2, lf_group_idx: 0 }),
        ("frame_2/lf_group_0/lf_coeff.json".to_string(), "LfCoeff(lf_group=0)".to_string())
    );
    assert_eq!(
        path_of(SegmentKind::HfCoeff { frame_idx: 0, pass_idx: 1, group_idx: 305, ans_symbols_file: None }),
        ("frame_0/pass_1/group_305/hf_coeff.json".to_string(), "HfCoeff(pass=1, group=305)".to_string())
    );
    assert_eq!(
        path_of(SegmentKind::ModularGlobal { frame_idx: 4294967295 }),
        ("frame_4294967295/modular_global.json".to_string(), "ModularGlobal".to_string())
    );
    assert_eq!(
        path_of(SegmentKind::ModularGroup { frame_idx: 9, group_idx: 10 }),
        ("frame_9/modular_group_10.json".to_string(), "ModularGroup(10)".to_string())
    );
}

#[test]
fn file_refs_follow_the_segments() {
    let segments = vec![
        seg(SegmentKind::Signature, (0, 16)),
        seg(SegmentKind::HfMetadata { frame_idx: 0, lf_group_idx: 2 }, (100, 250)),
    ];
    let refs = segment_file_refs(&segments);
    assert_eq!(refs.len(), 2);
    assert_eq!(refs[0].kind, "Signature");
    assert_eq!(refs[0].path, "segments/signature.json");
    assert_eq!(refs[0].bit_range, (0, 16));
    assert_eq!(refs[1].kind, "HfMetadata(lf_group=2)");
    assert_eq!(refs[1].path, "segments/frame_0/lf_group_2/hf_metadata.json");
    assert_eq!(refs[1].bit_range, (100, 250));
}

#[test]
fn dotted_paths_name_segment_files() {
    assert_eq!(segment_file("signature").unwrap(), "segments/signature.json");
    assert_eq!(segment_file("image_header").unwrap(), "segments/image_header.json");
    assert_eq!(segment_file("frame0.header").unwrap(), "segments/frame_0/header.json");
    assert_eq!(segment_file("frame2.hf_global").unwrap(), "segments/frame_2/hf_global.json");
    assert_eq!(
        segment_file("frame0.lf_group0.hf_metadata").unwrap(),
        "segments/frame_0/lf_group_0/hf_metadata.json"
    );
    assert_eq!(
        segment_file("frame1.pass0.group17.hf_coeff").unwrap(),
        "segments/frame_1/pass_0/group_17/hf_coeff.json"
    );
}

#[test]
fn indices_are_read_as_u32() {
    assert_eq!(segment_file("frame007.header").unwrap(), "segments/frame_7/header.json");
    assert_eq!(segment_file("frame+5.header").unwrap(), "segments/frame_5/header.json");
    assert_eq!(segment_file("frame4294967295.header").unwrap(), "segments/frame_4294967295/header.json");
}

#[test]
fn bad_indices_are_reported() {
    assert_eq!(segment_file("frame.header"), Err(SegmentPathError::InvalidIndex(IndexError::Empty)));
    assert_eq!(segment_file("framex.header"), Err(SegmentPathError::InvalidIndex(IndexError::InvalidDigit)));
    assert_eq!(segment_file("frame-1.header"), Err(SegmentPathError::InvalidIndex(IndexError::InvalidDigit)));
    assert_eq!(segment_file("frame+.header"), Err(SegmentPathError::InvalidIndex(IndexError::InvalidDigit)));
    assert_eq!(
        segment_file("frame4294967296.header"),
        Err(SegmentPathError::InvalidIndex(IndexError::PosOverflow))
    );
    assert_eq!(
        segment_file("frame0.lf_groupA.hf_metadata"),
        Err(SegmentPathError::InvalidIndex(IndexError::InvalidDigit))
    );
    assert_eq!(
        segment_file("frame1.pass0.group.hf_coeff"),
        Err(SegmentPathError::InvalidIndex(IndexError::Empty))
    );
}

#[test]
fn unknown_paths_are_reported() {
    assert_eq!(segment_file(""), Err(SegmentPathError::UnknownSegmentPath));
    assert_eq!(segment_file("toc"), Err(SegmentPathError::UnknownSegmentPath));
    assert_eq!(segment_file("signature.json"), Err(SegmentPathError::UnknownSegmentPath));
    assert_eq!(segment_file("image0.header"), Err(SegmentPathError::UnknownSegmentPath));
    assert_eq!(segment_file("frame0.lf_group0.lf_coeff"), Err(SegmentPathError::UnknownSegmentPath));
    assert_eq!(segment_file("frame0.group0.pass0.hf_coeff"), Err(SegmentPathError::UnknownSegmentPath));
}

#[test]
fn written_files_are_found_again() {
    let kinds = vec![
        (SegmentKind::HfMetadata { frame_idx: 3, lf_group_idx: 8 }, "frame3.lf_group8.hf_metadata"),
        (SegmentKind::HfCoeff { frame_idx: 0, pass_idx: 2, group_idx: 9, ans_symbols_file: None }, "frame0.pass2.group9.hf_coeff"),
        (SegmentKind::HfGlobal { frame_idx: 11 }, "frame11.hf_global"),
        (SegmentKind::Signature, "signature"),
        (SegmentKind::ImageHeader, "image_header"),
    ];
    for (kind, dotted) in kinds {
        let (path, _) = segment_path(&kind);
        assert_eq!(segment_file(dotted).unwrap(), format!("segments/{}", path));
    }
}

#[test]
fn different_segments_get_different_files() {
    let kinds = vec![
        SegmentKind::Container { box_type: "jxlc".to_string() },
        SegmentKind::Container { box_type: "jxlp".to_string() },
        SegmentKind::Signature,
        SegmentKind::ImageHeader,
        SegmentKind::FrameHeader { frame_idx: 1, encoding: "VarDct".to_string() },
        SegmentKind::FrameHeader { frame_idx: 11, encoding: "VarDct".to_string() },
        SegmentKind::Toc { frame_idx: 1 },
        SegmentKind::LfGlobal { frame_idx: 1 },
        SegmentKind::HfGlobal { frame_idx: 1 },
        SegmentKind::HfMetadata { frame_idx: 1, lf_group_idx: 1 },
        SegmentKind::HfMetadata { frame_idx: 11, lf_group_idx: 1 },
        SegmentKind::HfMetadata { frame_idx: 1, lf_group_idx: 11 },
        SegmentKind::LfCoeff { frame_idx: 1, lf_group_idx: 1 },
        SegmentKind::HfCoeff { frame_idx: 1, pass_idx: 1, group_idx: 11, ans_symbols_file: None },
        SegmentKind::HfCoeff { frame_idx: 1, pass_idx: 11, group_idx: 1, ans_symbols_file: None },
        SegmentKind::ModularGlobal { frame_idx: 1 },
        SegmentKind::ModularGroup { frame_idx: 1, group_idx: 1 },
        SegmentKind::ModularGroup { frame_idx: 1, group_idx: 11 },
    ];
    let paths: Vec<String> = kinds.iter().map(|k| segment_path(k).0).collect();
    for i in 0..paths.len() {
        for j in 0..i {
            assert_ne!(paths[i], paths[j]);
        }
    }
    // The encoding and the symbol file do not change the file.
    assert_eq!(
        segment_path(&SegmentKind::FrameHeader { frame_idx: 1, encoding: "Modular".to_string() }).0,
        paths[4]
    );
    assert_eq!(
        segment_path(&SegmentKind::HfCoeff { frame_idx: 1, pass_idx: 1, group_idx: 11, ans_symbols_file: Some("s".to_string()) }).0,
        paths[13]
    );
}

#[test]
fn files_of_checkpoints_and_block_data() {
    let mut image = ImageSummary {
        width: 1,
        height: 1,
        bits_per_sample: 8,
        grayscale: true,
        extra_channel_is_alpha: Vec::new(),
        first_keyframe: None,
        keyframe_blocks: Vec::new(),
        decoded_checkpoints: Vec::new(),
    };
    let options = AnnotateOptions { include_ans: false, include_checkpoints: true, max_depth: 10, frame_filter: None };
    let r = annotate_file("a.jxl".to_string(), &[], &image, &options, "1");
    assert_eq!(checkpoints_file(&r), None);
    image.decoded_checkpoints = vec![Checkpoint {
        stage: 0,
        frame_idx: 0,
        group_idx: 0,
        channel: 0,
        stats: CheckpointStats { min: 0, max: 0, mean: 0, stddev: 0, nonzero_count: 0, total_count: 0 },
    }];
    let r = annotate_file("a.jxl".to_string(), &[], &image, &options, "1");
    assert_eq!(checkpoints_file(&r).as_deref(), Some("checkpoints.json"));
    let ann = HfMetadataAnnotation { frame_idx: 2, lf_group_idx: 13, width_blocks: 1, height_blocks: 1, num_varblocks: 0, varblocks: Vec::new() };
    assert_eq!(vardct_blocks_file(&ann), "segments/frame_2/lf_group_13/vardct_blocks.json");
}
