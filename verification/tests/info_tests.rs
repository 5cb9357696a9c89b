use jxl_annotate::info::{info_text, AnimationSummary, FrameHeaderSummary, InfoSummary};
use jxl_annotate::stats::{reported_hf_range, VarDctStats};

fn info(animation: Option<AnimationSummary>, first_frame: Option<FrameHeaderSummary>, total_frames: u64) -> InfoSummary {
    InfoSummary {
        width: 2048,
        height: 2560,
        bits_per_sample: 8,
        grayscale: false,
        xyb_encoded: true,
        orientation: 1,
        extra_channels: 0,
        animation,
        first_frame,
        total_frames,
    }
}

fn frame(vardct: bool) -> FrameHeaderSummary {
    FrameHeaderSummary {
        vardct,
        width: 2048,
        height: 2560,
        num_passes: 1,
        num_lf_groups: 2,
        num_groups: 80,
        x_qm_scale: 3,
        b_qm_scale: 2,
    }
}

#[test]
fn report_of_a_still_vardct_image() {
    let text = info_text("photo.jxl", 388268, &info(None, Some(frame(true)), 1));
    assert_eq!(
        text,
        "File: photo.jxl\nSize: 388268 bytes\n\nImage:\n  Dimensions: 2048x2560\n  Bit depth: 8 bits\n\
         \x20 Color: Color\n  XYB encoded: Yes\n  Orientation: 1\n  Extra channels: 0\n\nFrame 0:\n\
         \x20 Encoding: VarDCT\n  Size: 2048x2560\n  Passes: 1\n  LF groups: 2\n  Groups: 80\n\
         \x20 X QM scale: 3\n  B QM scale: 2\n"
    );
}

#[test]
fn report_of_an_animation() {
    let mut i = info(Some(AnimationSummary { tps_numerator: 100, tps_denominator: 1, num_loops: 0 }), Some(frame(false)), 24);
    i.grayscale = true;
    i.xyb_encoded = false;
    i.extra_channels = 1;
    let text = info_text("anim.jxl", 10, &i);
    assert_eq!(
        text,
        "File: anim.jxl\nSize: 10 bytes\n\nImage:\n  Dimensions: 2048x2560\n  Bit depth: 8 bits\n\
         \x20 Color: Grayscale\n  XYB encoded: No\n  Orientation: 1\n  Extra channels: 1\n\nAnimation:\n\
         \x20 TPS: 100/1\n  Loops: 0\n\nFrame 0:\n  Encoding: Modular\n  Size: 2048x2560\n  Passes: 1\n\
         \x20 LF groups: 2\n  Groups: 80\n\nTotal frames: 24\n"
    );
}

#[test]
fn report_without_frames() {
    let text = info_text("x", 0, &info(None, None, 0));
    assert!(text.ends_with("  Extra channels: 0\n"));
}

#[test]
fn hf_range_is_zero_without_blocks() {
    let mut s = VarDctStats { total_blocks: 0, dct_types: Vec::new(), hf_mul_sum: 0, hf_mul_min: i32::MAX, hf_mul_max: i32::MIN };
    assert_eq!(reported_hf_range(&s), (0, 0));
    s.total_blocks = 2;
    s.hf_mul_min = -3;
    s.hf_mul_max = 9;
    assert_eq!(reported_hf_range(&s), (-3, 9));
}
