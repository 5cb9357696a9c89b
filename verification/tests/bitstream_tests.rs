use jxl_annotate::bitstream::{AnnotatedBitstream, Bitstream, BitstreamError};
use jxl_annotate::collector::AnnotationCollector;
use jxl_annotate::model::{AnnotatedValue, Annotation, DecoderLocation, EncodingType, SegmentKind};

fn location(line: u32) -> DecoderLocation {
    DecoderLocation { file: "src/headers.rs".to_string(), line, column: 9 }
}

fn plain_annotation(bit_start: u64, field: &str) -> Annotation {
    Annotation {
        bit_start,
        bit_length: 1,
        path: String::new(),
        field_name: field.to_string(),
        value: AnnotatedValue::Bool(true),
        encoding: EncodingType::Bool,
        spec_ref: None,
        decoder_location: None,
    }
}

#[test]
fn bits_are_read_least_significant_first() {
    let data = [0b1010_1101u8, 0xFF];
    let mut bits = Bitstream::new(&data);
    assert_eq!(bits.read_bits(4).unwrap(), 0b1101);
    assert_eq!(bits.read_bits(4).unwrap(), 0b1010);
    assert_eq!(bits.read_bool().unwrap(), true);
    assert_eq!(bits.num_read_bits(), 9);
    assert_eq!(bits.read_bits(7).unwrap(), 0x7F);
    assert_eq!(bits.num_read_bits(), 16);
}

#[test]
fn read_across_bytes() {
    let data = [0xFFu8, 0x0A];
    let mut bits = Bitstream::new(&data);
    assert_eq!(bits.read_bits(16).unwrap(), 0x0AFF);
}

#[test]
fn read_past_end_fails_and_reads_nothing() {
    let data = [0x12u8];
    let mut bits = Bitstream::new(&data);
    assert_eq!(bits.read_bits(3).unwrap(), 0b010);
    assert!(matches!(bits.read_bits(6), Err(BitstreamError::UnexpectedEof)));
    assert_eq!(bits.num_read_bits(), 3);
    assert_eq!(bits.read_bits(5).unwrap(), 0b00010);
    assert!(matches!(bits.read_bool(), Err(BitstreamError::UnexpectedEof)));
    assert_eq!(bits.num_read_bits(), 8);
}

#[test]
fn read_of_zero_bits_is_zero() {
    let data: [u8; 0] = [];
    let mut bits = Bitstream::new(&data);
    assert_eq!(bits.read_bits(0).unwrap(), 0);
    assert!(matches!(bits.read_bits(1), Err(BitstreamError::UnexpectedEof)));
}

#[test]
fn annotated_reads_record_path_position_and_value() {
    let data = [0xFFu8, 0x0A, 0x00];
    let mut bits = AnnotatedBitstream::new(&data);
    bits.begin_segment(SegmentKind::Signature);
    let sig = bits.read_bits_annotated(16, "signature", Some("ISO 18181-1:2022 A.4.1"), location(12)).unwrap();
    assert_eq!(sig, 0x0AFF);
    bits.end_segment();
    bits.begin_segment(SegmentKind::ImageHeader);
    bits.enter_context("ImageHeader");
    bits.enter_context("size");
    let div8 = bits.read_bool_annotated("div8", None, location(30)).unwrap();
    assert!(!div8);
    bits.exit_context();
    bits.exit_context();
    bits.end_segment();
    assert_eq!(bits.num_read_bits(), 17);

    let segments = bits.into_collector().into_segments();
    assert_eq!(segments.len(), 2);
    assert!(matches!(segments[0].kind, SegmentKind::Signature));
    assert_eq!(segments[0].bit_range, (0, 16));
    assert_eq!(segments[0].byte_range, (0, 2));
    assert_eq!(segments[0].annotations.len(), 1);
    let a = &segments[0].annotations[0];
    assert_eq!(a.bit_start, 0);
    assert_eq!(a.bit_length, 16);
    assert_eq!(a.path, "");
    assert_eq!(a.field_name, "signature");
    assert!(matches!(a.value, AnnotatedValue::U32(2815)));
    assert!(matches!(a.encoding, EncodingType::Bits { n: 16 }));
    assert_eq!(a.spec_ref.as_deref(), Some("ISO 18181-1:2022 A.4.1"));
    assert_eq!(a.decoder_location.as_ref().unwrap().line, 12);

    assert!(matches!(segments[1].kind, SegmentKind::ImageHeader));
    assert_eq!(segments[1].bit_range, (16, 17));
    assert_eq!(segments[1].byte_range, (2, 3));
    let b = &segments[1].annotations[0];
    assert_eq!(b.bit_start, 16);
    assert_eq!(b.bit_length, 1);
    assert_eq!(b.path, "ImageHeader.size");
    assert_eq!(b.field_name, "div8");
    assert!(matches!(b.value, AnnotatedValue::Bool(false)));
    assert!(matches!(b.encoding, EncodingType::Bool));
    assert!(b.spec_ref.is_none());
}

#[test]
fn failed_annotated_read_records_nothing() {
    let data = [0x01u8];
    let mut bits = AnnotatedBitstream::new(&data);
    assert!(matches!(bits.read_bits_annotated(9, "too_long", None, location(1)), Err(BitstreamError::UnexpectedEof)));
    assert_eq!(bits.num_read_bits(), 0);
    assert_eq!(bits.collector().annotations.len(), 0);
    assert!(bits.read_bool_annotated("flag", None, location(2)).unwrap());
    assert_eq!(bits.collector().annotations.len(), 1);
    assert_eq!(bits.inner().num_read_bits(), 1);
}

#[test]
fn inner_mut_reads_without_annotation() {
    let data = [0xF0u8];
    let mut bits = AnnotatedBitstream::with_collector(&data, AnnotationCollector::new());
    assert_eq!(bits.inner_mut().read_bits(4).unwrap(), 0);
    assert_eq!(bits.num_read_bits(), 4);
    assert_eq!(bits.read_bits_annotated(4, "high", None, location(3)).unwrap(), 0xF);
    assert_eq!(bits.collector().annotations.len(), 1);
    assert_eq!(bits.collector().annotations[0].bit_start, 4);
}

#[test]
fn nested_segments_become_children() {
    let mut c = AnnotationCollector::new();
    c.begin_segment(SegmentKind::LfGlobal { frame_idx: 0 }, 8);
    c.push(plain_annotation(8, "outer"));
    c.begin_segment(SegmentKind::HfGlobal { frame_idx: 0 }, 20);
    c.push(plain_annotation(20, "inner"));
    c.end_segment(30);
    c.end_segment(41);
    c.push(plain_annotation(50, "loose"));
    assert_eq!(c.annotations.len(), 1);
    let segs = c.into_segments();
    assert_eq!(segs.len(), 1);
    assert_eq!(segs[0].bit_range, (8, 41));
    assert_eq!(segs[0].byte_range, (1, 6));
    assert_eq!(segs[0].annotations.len(), 1);
    assert_eq!(segs[0].annotations[0].field_name, "outer");
    assert_eq!(segs[0].children.len(), 1);
    assert_eq!(segs[0].children[0].bit_range, (20, 30));
    assert_eq!(segs[0].children[0].byte_range, (2, 4));
    assert_eq!(segs[0].children[0].annotations[0].field_name, "inner");
}

#[test]
fn open_segments_are_closed_at_bit_zero() {
    let mut c = AnnotationCollector::default();
    c.begin_segment(SegmentKind::Toc { frame_idx: 1 }, 16);
    c.begin_segment(SegmentKind::LfGlobal { frame_idx: 1 }, 24);
    let segs = c.into_segments();
    assert_eq!(segs.len(), 1);
    assert!(matches!(segs[0].kind, SegmentKind::Toc { frame_idx: 1 }));
    assert_eq!(segs[0].bit_range, (16, 0));
    assert_eq!(segs[0].byte_range, (2, 0));
    assert_eq!(segs[0].children.len(), 1);
    assert_eq!(segs[0].children[0].bit_range, (24, 0));
}

#[test]
fn end_without_open_segment_changes_nothing() {
    let mut c = AnnotationCollector::new();
    c.end_segment(99);
    c.push(plain_annotation(0, "top"));
    assert_eq!(c.annotations.len(), 1);
    assert_eq!(c.into_segments().len(), 0);
}

#[test]
fn two_reads_give_the_bits_of_one() {
    let data = [0b1011_0110u8, 0b0101_1100, 0xE7];
    for a in 0..=12usize {
        let mut split = Bitstream::new(&data);
        let low = split.read_bits(a).unwrap();
        let high = split.read_bits(12 - a).unwrap();
        let mut whole = Bitstream::new(&data);
        let both = whole.read_bits(12).unwrap();
        assert_eq!(both, low | (high << a), "split after {} bits", a);
    }
}

#[test]
fn a_run_of_reads_fills_one_segment() {
    let data = [0xA5u8, 0x3C, 0xFF];
    let mut bits = AnnotatedBitstream::new(&data);
    assert_eq!(bits.inner_mut().read_bits(3).unwrap(), 0b101);
    bits.begin_segment(SegmentKind::LfGlobal { frame_idx: 0 });
    bits.enter_context("LfGlobal");
    for i in 0..5 {
        bits.read_bits_annotated(2, "field", None, location(i)).unwrap();
    }
    bits.exit_context();
    bits.end_segment();
    let segs = bits.into_collector().into_segments();
    assert_eq!(segs.len(), 1);
    assert_eq!(segs[0].bit_range, (3, 13));
    assert_eq!(segs[0].byte_range, (0, 2));
    assert_eq!(segs[0].annotations.len(), 5);
    assert!(segs[0].children.is_empty());
    for (i, a) in segs[0].annotations.iter().enumerate() {
        assert_eq!(a.bit_start, 3 + 2 * i as u64);
        assert_eq!(a.path, "LfGlobal");
    }
}
