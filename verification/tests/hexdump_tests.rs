use jxl_annotate::hexdump::format_hex_annotated;
use jxl_annotate::model::{AnnotatedValue, Annotation, EncodingType};

fn ann(bit_start: u64, bit_length: u32, field: &str, value: AnnotatedValue) -> Annotation {
    Annotation {
        bit_start,
        bit_length,
        path: String::new(),
        field_name: field.to_string(),
        value,
        encoding: EncodingType::Bits { n: 0 },
        spec_ref: None,
        decoder_location: None,
    }
}

#[test]
fn empty_data_gives_empty_dump() {
    assert_eq!(format_hex_annotated(&[], &[]), "");
}

#[test]
fn short_line_is_padded() {
    let data = [0xFFu8, 0x0A, b'A', b' ', 0x7F];
    let out = format_hex_annotated(&data, &[]);
    assert_eq!(
        out,
        "00000000  ff 0a 41 20 7f                                    |..A .|\n"
    );
}

#[test]
fn full_lines_and_offsets() {
    let data: Vec<u8> = (0x30u8..0x30 + 17).collect();
    let out = format_hex_annotated(&data, &[]);
    assert_eq!(
        out,
        "00000000  30 31 32 33 34 35 36 37  38 39 3a 3b 3c 3d 3e 3f  |0123456789:;<=>?|\n\
         00000010  40                                                |@|\n"
    );
}

#[test]
fn annotations_follow_the_line_of_their_first_byte() {
    let data = [0xFFu8, 0x0A, 0x00, 0x00];
    let anns = vec![
        ann(0, 16, "signature", AnnotatedValue::U32(0x0AFF)),
        ann(16, 1, "div8", AnnotatedValue::Bool(false)),
        ann(20, 0, "inside", AnnotatedValue::Padding),
        ann(24, 0, "between", AnnotatedValue::Padding),
    ];
    let out = format_hex_annotated(&data, &anns);
    assert_eq!(
        out,
        "00000000  ff 0a 00 00                                       |....|\n\
         \x20         ; signature = U32(2815) (16 bits)\n\
         \x20         ; div8 = Bool(false) (1 bits)\n\
         \x20         ; inside = Padding (0 bits)\n"
    );
}

#[test]
fn annotations_of_one_byte_keep_their_order() {
    let data = [0u8; 20];
    let anns = vec![
        ann(130, 3, "late", AnnotatedValue::I32(-4)),
        ann(128, 2, "early", AnnotatedValue::U64(7)),
        ann(0, 1, "first", AnnotatedValue::Enum { name: "Kind".to_string(), variant: "A".to_string(), value: 1 }),
    ];
    let out = format_hex_annotated(&data, &anns);
    let lines: Vec<&str> = out.lines().collect();
    assert_eq!(lines.len(), 5);
    assert_eq!(lines[1], "          ; first = Enum { name: \"Kind\", variant: \"A\", value: 1 } (1 bits)");
    assert!(lines[2].starts_with("00000010  00 00 00 00"));
    assert_eq!(lines[3], "          ; late = I32(-4) (3 bits)");
    assert_eq!(lines[4], "          ; early = U64(7) (2 bits)");
}

#[test]
fn annotations_are_shown_for_every_position_of_a_line() {
    let data = [1u8];
    let anns = vec![ann(64, 8, "in_line", AnnotatedValue::U32(1)), ann(128, 8, "next_line", AnnotatedValue::U32(2))];
    assert_eq!(
        format_hex_annotated(&data, &anns),
        "00000000  01                                                |.|\n\
         \x20         ; in_line = U32(1) (8 bits)\n"
    );
}
