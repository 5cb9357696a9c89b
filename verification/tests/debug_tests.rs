use jxl_annotate::debug::{kind_debug_string, push_value_debug};
use jxl_annotate::model::{AnnotatedValue, SegmentKind};

fn value_text(v: &AnnotatedValue) -> String {
    let mut s = String::new();
    push_value_debug(&mut s, v);
    s
}

#[test]
fn kind_text_is_the_derived_debug_text() {
    let kinds = vec![
        SegmentKind::Container { box_type: "jxl\"c".to_string() },
        SegmentKind::Signature,
        SegmentKind::ImageHeader,
        SegmentKind::FrameHeader { frame_idx: 2, encoding: "VarDct".to_string() },
        SegmentKind::Toc { frame_idx: 0 },
        SegmentKind::LfGlobal { frame_idx: 1 },
        SegmentKind::HfGlobal { frame_idx: 4294967295 },
        SegmentKind::HfMetadata { frame_idx: 0, lf_group_idx: 12 },
        SegmentKind::LfCoeff { frame_idx: 3, lf_group_idx: 4 },
        SegmentKind::HfCoeff { frame_idx: 0, pass_idx: 1, group_idx: 2, ans_symbols_file: None },
        SegmentKind::HfCoeff { frame_idx: 0, pass_idx: 1, group_idx: 2, ans_symbols_file: Some("ans/g2.bin".to_string()) },
        SegmentKind::ModularGlobal { frame_idx: 9 },
        SegmentKind::ModularGroup { frame_idx: 9, group_idx: 10 },
    ];
    for k in &kinds {
        assert_eq!(kind_debug_string(k), format!("{:?}", k));
    }
}

#[test]
fn hf_coeff_text_quotes_the_symbol_file() {
    let k = SegmentKind::HfCoeff { frame_idx: 1, pass_idx: 0, group_idx: 7, ans_symbols_file: Some("a b".to_string()) };
    assert_eq!(
        kind_debug_string(&k),
        "HfCoeff { frame_idx: 1, pass_idx: 0, group_idx: 7, ans_symbols_file: Some(\"a b\") }"
    );
}

#[test]
fn value_texts() {
    assert_eq!(value_text(&AnnotatedValue::U32(0x0AFF)), "U32(2815)");
    assert_eq!(value_text(&AnnotatedValue::Bool(true)), "Bool(true)");
    assert_eq!(value_text(&AnnotatedValue::U64(18446744073709551615)), "U64(18446744073709551615)");
    assert_eq!(value_text(&AnnotatedValue::I32(i32::MIN)), "I32(-2147483648)");
    assert_eq!(value_text(&AnnotatedValue::I64(-1)), "I64(-1)");
    assert_eq!(value_text(&AnnotatedValue::F32(format!("{:?}", 1.5f32))), "F32(1.5)");
    assert_eq!(value_text(&AnnotatedValue::Padding), "Padding");
    assert_eq!(
        value_text(&AnnotatedValue::Nested { type_label: "Size\n".to_string() }),
        "Nested { type_name: \"Size\\n\" }"
    );
    assert_eq!(
        value_text(&AnnotatedValue::Array(vec![AnnotatedValue::U32(1), AnnotatedValue::Bool(false), AnnotatedValue::Array(vec![])])),
        "Array([U32(1), Bool(false), Array([])])"
    );
    let mut s = "x = ".to_string();
    push_value_debug(&mut s, &AnnotatedValue::Enum { name: "Orientation".to_string(), variant: "Identity".to_string(), value: 1 });
    assert_eq!(s, "x = Enum { name: \"Orientation\", variant: \"Identity\", value: 1 }");
}
