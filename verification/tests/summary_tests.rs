use jxl_annotate::annotator::{FrameSummary, ImageSummary};
use jxl_annotate::hexdump::dump_window;
use jxl_annotate::inspect::summary_line;
use jxl_annotate::stats::{DctTypeCount, VarDctStats};

fn image(grayscale: bool, vardct: Option<bool>) -> ImageSummary {
    ImageSummary {
        width: 2048,
        height: 2560,
        bits_per_sample: 8,
        grayscale,
        extra_channel_is_alpha: Vec::new(),
        first_keyframe: vardct.map(|v| FrameSummary {
            vardct: v,
            width: 2048,
            height: 2560,
            num_lf_groups: 2,
            num_passes: 1,
            num_groups: 80,
        }),
        keyframe_blocks: Vec::new(),
        decoded_checkpoints: Vec::new(),
    }
}

fn stats(total_blocks: u32, types: &[(&str, u32)]) -> VarDctStats {
    VarDctStats {
        total_blocks,
        dct_types: types.iter().map(|(t, c)| DctTypeCount { dct_type: t.to_string(), count: *c }).collect(),
        hf_mul_sum: 0,
        hf_mul_min: i32::MAX,
        hf_mul_max: i32::MIN,
    }
}

#[test]
fn summary_of_a_vardct_photo() {
    let s = stats(30136, &[("Dct8", 9068), ("Dct8x16", 5642)]);
    assert_eq!(
        summary_line("photo1.jxl", &image(false, Some(true)), 1, &s, 388268),
        "photo1.jxl: 2048x2560 8bit color VarDCT 30136blk Dct8:30% 388268B"
    );
}

#[test]
fn summary_of_an_animation() {
    let s = stats(45000, &[("Dct8", 18900)]);
    assert_eq!(
        summary_line("anim.jxl", &image(false, Some(true)), 24, &s, 892156),
        "anim.jxl: 2048x2560 8bit color VarDCT 24f 45000blk Dct8:42% 892156B"
    );
}

#[test]
fn summary_without_blocks() {
    let s = stats(0, &[]);
    assert_eq!(
        summary_line("g.jxl", &image(true, Some(false)), 1, &s, 10),
        "g.jxl: 2048x2560 8bit gray Modular 0blk 10B"
    );
    assert_eq!(summary_line("n.jxl", &image(false, None), 0, &s, 0), "n.jxl: 2048x2560 8bit color 0blk 0B");
}

#[test]
fn shares_round_to_nearest() {
    // 1/8 = 12.5% rounds up, 1/3 = 33.3% rounds down, 2/3 = 66.7% rounds up.
    let img = image(false, Some(true));
    assert!(summary_line("a", &img, 1, &stats(8, &[("A", 1)]), 1).contains(" A:13% "));
    assert!(summary_line("a", &img, 1, &stats(3, &[("A", 1)]), 1).contains(" A:33% "));
    assert!(summary_line("a", &img, 1, &stats(3, &[("A", 2)]), 1).contains(" A:67% "));
    assert!(summary_line("a", &img, 1, &stats(4294967295, &[("A", 4294967295)]), 1).contains(" A:100% "));
}

#[test]
fn dump_windows_stay_inside_the_data() {
    assert_eq!(dump_window(100, 0, None), (0, 100));
    assert_eq!(dump_window(100, 10, None), (10, 100));
    assert_eq!(dump_window(100, 10, Some(20)), (10, 30));
    assert_eq!(dump_window(100, 90, Some(20)), (90, 100));
    assert_eq!(dump_window(100, 150, Some(20)), (100, 100));
    assert_eq!(dump_window(100, 0, Some(usize::MAX)), (0, 100));
    assert_eq!(dump_window(0, 0, Some(0)), (0, 0));
}
