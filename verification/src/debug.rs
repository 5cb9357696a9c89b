//! `Debug`-style renderings of annotated values and segment kinds, written
//! out character by character with their specifications.

use vstd::prelude::*;
use crate::model::{AnnotatedValue, SegmentKind};
use crate::text::{decimal, push_decimal, push_signed_decimal, signed_decimal, spec_str_debug, str_debug};

verus! {

/// The Rust `Debug` text of a filesystem path given by its characters.
pub uninterp spec fn spec_path_debug(s: Seq<char>) -> Seq<char>;

/// Calls `format!("{:?}", Path::new(p))`, the `Debug` rendering of a path;
/// its result is named by `spec_path_debug` and depends on the characters of
/// `p` alone.
#[verifier::external_body]
pub(crate) fn path_debug(p: &str) -> (r: String)
    ensures
        r@ == spec_path_debug(p@),
{
    format!("{:?}", std::path::Path::new(p))
}

/// `Debug` text of a boolean.
pub open spec fn bool_text(b: bool) -> Seq<char> {
    if b { "true"@ } else { "false"@ }
}

/// `Debug` text of an optional path.
pub open spec fn opt_path_debug(p: Option<String>) -> Seq<char> {
    match p {
        None => "None"@,
        Some(s) => "Some("@ + spec_path_debug(s@) + ")"@,
    }
}

/// `Debug` text of a segment kind, as `#[derive(Debug)]` renders it.
pub open spec fn kind_debug(k: SegmentKind) -> Seq<char> {
    match k {
        SegmentKind::Container { box_type } =>
            "Container { box_type: "@ + spec_str_debug(box_type@) + " }"@,
        SegmentKind::Signature => "Signature"@,
        SegmentKind::ImageHeader => "ImageHeader"@,
        SegmentKind::FrameHeader { frame_idx, encoding } =>
            "FrameHeader { frame_idx: "@ + decimal(frame_idx as nat) + ", encoding: "@
                + spec_str_debug(encoding@) + " }"@,
        SegmentKind::Toc { frame_idx } =>
            "Toc { frame_idx: "@ + decimal(frame_idx as nat) + " }"@,
        SegmentKind::LfGlobal { frame_idx } =>
            "LfGlobal { frame_idx: "@ + decimal(frame_idx as nat) + " }"@,
        SegmentKind::HfGlobal { frame_idx } =>
            "HfGlobal { frame_idx: "@ + decimal(frame_idx as nat) + " }"@,
        SegmentKind::HfMetadata { frame_idx, lf_group_idx } =>
            "HfMetadata { frame_idx: "@ + decimal(frame_idx as nat) + ", lf_group_idx: "@
                + decimal(lf_group_idx as nat) + " }"@,
        SegmentKind::LfCoeff { frame_idx, lf_group_idx } =>
            "LfCoeff { frame_idx: "@ + decimal(frame_idx as nat) + ", lf_group_idx: "@
                + decimal(lf_group_idx as nat) + " }"@,
        SegmentKind::HfCoeff { frame_idx, pass_idx, group_idx, ans_symbols_file } =>
            "HfCoeff { frame_idx: "@ + decimal(frame_idx as nat) + ", pass_idx: "@
                + decimal(pass_idx as nat) + ", group_idx: "@ + decimal(group_idx as nat)
                + ", ans_symbols_file: "@ + opt_path_debug(ans_symbols_file) + " }"@,
        SegmentKind::ModularGlobal { frame_idx } =>
            "ModularGlobal { frame_idx: "@ + decimal(frame_idx as nat) + " }"@,
        SegmentKind::ModularGroup { frame_idx, group_idx } =>
            "ModularGroup { frame_idx: "@ + decimal(frame_idx as nat) + ", group_idx: "@
                + decimal(group_idx as nat) + " }"@,
    }
}

/// `Debug` text of an annotated value, as `#[derive(Debug)]` renders it.
pub open spec fn value_debug(v: AnnotatedValue) -> Seq<char>
    decreases v,
{
    match v {
        AnnotatedValue::Bool(b) => "Bool("@ + bool_text(b) + ")"@,
        AnnotatedValue::U32(x) => "U32("@ + decimal(x as nat) + ")"@,
        AnnotatedValue::U64(x) => "U64("@ + decimal(x as nat) + ")"@,
        AnnotatedValue::I32(x) => "I32("@ + signed_decimal(x as int) + ")"@,
        AnnotatedValue::I64(x) => "I64("@ + signed_decimal(x as int) + ")"@,
        AnnotatedValue::F32(t) => "F32("@ + t@ + ")"@,
        AnnotatedValue::Enum { name, variant, value } =>
            "Enum { name: "@ + spec_str_debug(name@) + ", variant: "@ + spec_str_debug(variant@)
                + ", value: "@ + decimal(value as nat) + " }"@,
        AnnotatedValue::Nested { type_label } =>
            "Nested { type_name: "@ + spec_str_debug(type_label@) + " }"@,
        AnnotatedValue::Array(vs) => "Array(["@ + values_debug(vs@) + "])"@,
        AnnotatedValue::Padding => "Padding"@,
    }
}

/// The `Debug` texts of a list of values, separated by `, `.
pub open spec fn values_debug(vs: Seq<AnnotatedValue>) -> Seq<char>
    decreases vs,
{
    if vs.len() == 0 {
        Seq::empty()
    } else if vs.len() == 1 {
        value_debug(vs[0])
    } else {
        values_debug(vs.drop_last()) + ", "@ + value_debug(vs.last())
    }
}

/// Appends the `Debug` text of `b`.
pub fn push_bool(out: &mut String, b: bool)
    ensures
        final(out)@ == old(out)@ + bool_text(b),
{
    if b {
        out.append("true");
    } else {
        out.append("false");
    }
}

/// Appends the `Debug` text of a segment kind.
pub fn push_kind_debug(out: &mut String, k: &SegmentKind)
    ensures
        final(out)@ == old(out)@ + kind_debug(*k),
{
    let ghost o = out@;
    match k {
        SegmentKind::Container { box_type } => {
            out.append("Container { box_type: ");
            out.append(str_debug(box_type.as_str()).as_str());
            out.append(" }");
        },
        SegmentKind::Signature => {
            out.append("Signature");
        },
        SegmentKind::ImageHeader => {
            out.append("ImageHeader");
        },
        SegmentKind::FrameHeader { frame_idx, encoding } => {
            out.append("FrameHeader { frame_idx: ");
            push_decimal(out, *frame_idx as u64);
            out.append(", encoding: ");
            out.append(str_debug(encoding.as_str()).as_str());
            out.append(" }");
        },
        SegmentKind::Toc { frame_idx } => {
            out.append("Toc { frame_idx: ");
            push_decimal(out, *frame_idx as u64);
            out.append(" }");
        },
        SegmentKind::LfGlobal { frame_idx } => {
            out.append("LfGlobal { frame_idx: ");
            push_decimal(out, *frame_idx as u64);
            out.append(" }");
        },
        SegmentKind::HfGlobal { frame_idx } => {
            out.append("HfGlobal { frame_idx: ");
            push_decimal(out, *frame_idx as u64);
            out.append(" }");
        },
        SegmentKind::HfMetadata { frame_idx, lf_group_idx } => {
            out.append("HfMetadata { frame_idx: ");
            push_decimal(out, *frame_idx as u64);
            out.append(", lf_group_idx: ");
            push_decimal(out, *lf_group_idx as u64);
            out.append(" }");
        },
        SegmentKind::LfCoeff { frame_idx, lf_group_idx } => {
            out.append("LfCoeff { frame_idx: ");
            push_decimal(out, *frame_idx as u64);
            out.append(", lf_group_idx: ");
            push_decimal(out, *lf_group_idx as u64);
            out.append(" }");
        },
        SegmentKind::HfCoeff { frame_idx, pass_idx, group_idx, ans_symbols_file } => {
            out.append("HfCoeff { frame_idx: ");
            push_decimal(out, *frame_idx as u64);
            out.append(", pass_idx: ");
            push_decimal(out, *pass_idx as u64);
            out.append(", group_idx: ");
            push_decimal(out, *group_idx as u64);
            out.append(", ans_symbols_file: ");
            match ans_symbols_file {
                None => {
                    out.append("None");
                },
                Some(p) => {
                    out.append("Some(");
                    out.append(path_debug(p.as_str()).as_str());
                    out.append(")");
                },
            }
            out.append(" }");
        },
        SegmentKind::ModularGlobal { frame_idx } => {
            out.append("ModularGlobal { frame_idx: ");
            push_decimal(out, *frame_idx as u64);
            out.append(" }");
        },
        SegmentKind::ModularGroup { frame_idx, group_idx } => {
            out.append("ModularGroup { frame_idx: ");
            push_decimal(out, *frame_idx as u64);
            out.append(", group_idx: ");
            push_decimal(out, *group_idx as u64);
            out.append(" }");
        },
    }
    assert(out@ =~= o + kind_debug(*k));
}

/// The `Debug` text of a segment kind.
pub fn kind_debug_string(k: &SegmentKind) -> (r: String)
    ensures
        r@ == kind_debug(*k),
{
    let mut out = String::new();
    push_kind_debug(&mut out, k);
    assert(out@ =~= kind_debug(*k));
    out
}

/// Appends the `Debug` text of an annotated value.
pub fn push_value_debug(out: &mut String, v: &AnnotatedValue)
    ensures
        final(out)@ == old(out)@ + value_debug(*v),
    decreases v,
{
    let ghost o = out@;
    match v {
        AnnotatedValue::Bool(b) => {
            out.append("Bool(");
            push_bool(out, *b);
            out.append(")");
        },
        AnnotatedValue::U32(x) => {
            out.append("U32(");
            push_decimal(out, *x as u64);
            out.append(")");
        },
        AnnotatedValue::U64(x) => {
            out.append("U64(");
            push_decimal(out, *x);
            out.append(")");
        },
        AnnotatedValue::I32(x) => {
            out.append("I32(");
            push_signed_decimal(out, *x as i64);
            out.append(")");
        },
        AnnotatedValue::I64(x) => {
            out.append("I64(");
            push_signed_decimal(out, *x);
            out.append(")");
        },
        AnnotatedValue::F32(t) => {
            out.append("F32(");
            out.append(t.as_str());
            out.append(")");
        },
        AnnotatedValue::Enum { name, variant, value } => {
            out.append("Enum { name: ");
            out.append(str_debug(name.as_str()).as_str());
            out.append(", variant: ");
            out.append(str_debug(variant.as_str()).as_str());
            out.append(", value: ");
            push_decimal(out, *value as u64);
            out.append(" }");
        },
        AnnotatedValue::Nested { type_label } => {
            out.append("Nested { type_name: ");
            out.append(str_debug(type_label.as_str()).as_str());
            out.append(" }");
        },
        AnnotatedValue::Array(vs) => {
            out.append("Array([");
            let ghost mid = out@;
            let n = vs.len();
            let mut i: usize = 0;
            while i < n
                invariant
                    n == vs@.len(),
                    *v == AnnotatedValue::Array(*vs),
                    i <= n,
                    out@ == mid + values_debug(vs@.take(i as int)),
                decreases n - i,
            {
                if i > 0 {
                    out.append(", ");
                }
                proof {
                    assert(*v == AnnotatedValue::Array(*vs));
                    assert(decreases_to!(*v => (*v)->0));
                    assert((*v)->0 == *vs);
                    assert(decreases_to!(*vs => vs@));
                    assert(decreases_to!(vs@ => vs@[i as int]));
                    assert(decreases_to!(*v => vs@[i as int]));
                }
                push_value_debug(out, &vs[i]);
                assert(vs@.take(i + 1).drop_last() =~= vs@.take(i as int));
                assert(out@ =~= mid + values_debug(vs@.take(i + 1)));
                i = i + 1;
            }
            assert(vs@.take(n as int) =~= vs@);
            out.append("])");
        },
        AnnotatedValue::Padding => {
            out.append("Padding");
        },
    }
    assert(out@ =~= o + value_debug(*v));
}

} // verus!
