//! Where each segment is written, what the manifest lists of those files,
//! and the inverse mapping from dotted segment paths to the files.

use vstd::prelude::*;
use crate::annotator::AnnotationResult;
use crate::model::{AnnotationManifest, HfMetadataAnnotation, Segment, SegmentFileRef, SegmentKind};
use crate::text::{decimal, push_decimal};

verus! {

/// The file of a segment, relative to the `segments` directory, and the
/// label of its kind.
pub open spec fn spec_segment_path(kind: SegmentKind) -> (Seq<char>, Seq<char>) {
    match kind {
        SegmentKind::Container { box_type } =>
            ("container_"@ + box_type@ + ".json"@, "Container"@),
        SegmentKind::Signature => ("signature.json"@, "Signature"@),
        SegmentKind::ImageHeader => ("image_header.json"@, "ImageHeader"@),
        SegmentKind::FrameHeader { frame_idx, encoding } =>
            ("frame_"@ + decimal(frame_idx as nat) + "/header.json"@, "FrameHeader("@ + encoding@ + ")"@),
        SegmentKind::Toc { frame_idx } =>
            ("frame_"@ + decimal(frame_idx as nat) + "/toc.json"@, "Toc"@),
        SegmentKind::LfGlobal { frame_idx } =>
            ("frame_"@ + decimal(frame_idx as nat) + "/lf_global.json"@, "LfGlobal"@),
        SegmentKind::HfGlobal { frame_idx } =>
            ("frame_"@ + decimal(frame_idx as nat) + "/hf_global.json"@, "HfGlobal"@),
        SegmentKind::HfMetadata { frame_idx, lf_group_idx } => (
            "frame_"@ + decimal(frame_idx as nat) + "/lf_group_"@ + decimal(lf_group_idx as nat)
                + "/hf_metadata.json"@,
            "HfMetadata(lf_group="@ + decimal(lf_group_idx as nat) + ")"@,
        ),
        SegmentKind::LfCoeff { frame_idx, lf_group_idx } => (
            "frame_"@ + decimal(frame_idx as nat) + "/lf_group_"@ + decimal(lf_group_idx as nat)
                + "/lf_coeff.json"@,
            "LfCoeff(lf_group="@ + decimal(lf_group_idx as nat) + ")"@,
        ),
        SegmentKind::HfCoeff { frame_idx, pass_idx, group_idx, ans_symbols_file } => (
            "frame_"@ + decimal(frame_idx as nat) + "/pass_"@ + decimal(pass_idx as nat) + "/group_"@
                + decimal(group_idx as nat) + "/hf_coeff.json"@,
            "HfCoeff(pass="@ + decimal(pass_idx as nat) + ", group="@ + decimal(group_idx as nat) + ")"@,
        ),
        SegmentKind::ModularGlobal { frame_idx } =>
            ("frame_"@ + decimal(frame_idx as nat) + "/modular_global.json"@, "ModularGlobal"@),
        SegmentKind::ModularGroup { frame_idx, group_idx } => (
            "frame_"@ + decimal(frame_idx as nat) + "/modular_group_"@ + decimal(group_idx as nat)
                + ".json"@,
            "ModularGroup("@ + decimal(group_idx as nat) + ")"@,
        ),
    }
}

/// Get the file path for a segment kind.
pub fn segment_path(kind: &SegmentKind) -> (r: (String, String))
    ensures
        r.0@ == spec_segment_path(*kind).0,
        r.1@ == spec_segment_path(*kind).1,
{
    let mut path = String::new();
    let mut label = String::new();
    match kind {
        SegmentKind::Container { box_type } => {
            path.append("container_");
            path.append(box_type.as_str());
            path.append(".json");
            label.append("Container");
        },
        SegmentKind::Signature => {
            path.append("signature.json");
            label.append("Signature");
        },
        SegmentKind::ImageHeader => {
            path.append("image_header.json");
            label.append("ImageHeader");
        },
        SegmentKind::FrameHeader { frame_idx, encoding } => {
            path.append("frame_");
            push_decimal(&mut path, *frame_idx as u64);
            path.append("/header.json");
            label.append("FrameHeader(");
            label.append(encoding.as_str());
            label.append(")");
        },
        SegmentKind::Toc { frame_idx } => {
            path.append("frame_");
            push_decimal(&mut path, *frame_idx as u64);
            path.append("/toc.json");
            label.append("Toc");
        },
        SegmentKind::LfGlobal { frame_idx } => {
            path.append("frame_");
            push_decimal(&mut path, *frame_idx as u64);
            path.append("/lf_global.json");
            label.append("LfGlobal");
        },
        SegmentKind::HfGlobal { frame_idx } => {
            path.append("frame_");
            push_decimal(&mut path, *frame_idx as u64);
            path.append("/hf_global.json");
            label.append("HfGlobal");
        },
        SegmentKind::HfMetadata { frame_idx, lf_group_idx } => {
            path.append("frame_");
            push_decimal(&mut path, *frame_idx as u64);
            path.append("/lf_group_");
            push_decimal(&mut path, *lf_group_idx as u64);
            path.append("/hf_metadata.json");
            label.append("HfMetadata(lf_group=");
            push_decimal(&mut label, *lf_group_idx as u64);
            label.append(")");
        },
        SegmentKind::LfCoeff { frame_idx, lf_group_idx } => {
            path.append("frame_");
            push_decimal(&mut path, *frame_idx as u64);
            path.append("/lf_group_");
            push_decimal(&mut path, *lf_group_idx as u64);
            path.append("/lf_coeff.json");
            label.append("LfCoeff(lf_group=");
            push_decimal(&mut label, *lf_group_idx as u64);
            label.append(")");
        },
        SegmentKind::HfCoeff { frame_idx, pass_idx, group_idx, .. } => {
            path.append("frame_");
            push_decimal(&mut path, *frame_idx as u64);
            path.append("/pass_");
            push_decimal(&mut path, *pass_idx as u64);
            path.append("/group_");
            push_decimal(&mut path, *group_idx as u64);
            path.append("/hf_coeff.json");
            label.append("HfCoeff(pass=");
            push_decimal(&mut label, *pass_idx as u64);
            label.append(", group=");
            push_decimal(&mut label, *group_idx as u64);
            label.append(")");
        },
        SegmentKind::ModularGlobal { frame_idx } => {
            path.append("frame_");
            push_decimal(&mut path, *frame_idx as u64);
            path.append("/modular_global.json");
            label.append("ModularGlobal");
        },
        SegmentKind::ModularGroup { frame_idx, group_idx } => {
            path.append("frame_");
            push_decimal(&mut path, *frame_idx as u64);
            path.append("/modular_group_");
            push_decimal(&mut path, *group_idx as u64);
            path.append(".json");
            label.append("ModularGroup(");
            push_decimal(&mut label, *group_idx as u64);
            label.append(")");
        },
    }
    assert(path@ =~= spec_segment_path(*kind).0);
    assert(label@ =~= spec_segment_path(*kind).1);
    (path, label)
}

/// The reference of a written segment: its label, its file under the
/// `segments` directory, and its bit range.
pub open spec fn is_segment_ref(r: SegmentFileRef, s: Segment) -> bool {
    &&& r.kind@ == spec_segment_path(s.kind).1
    &&& r.path@ == "segments/"@ + spec_segment_path(s.kind).0
    &&& r.bit_range == s.bit_range
}

/// The references to the files that hold the given segments, one per
/// segment and in the same order, as the manifest lists them.
pub fn segment_file_refs(segments: &Vec<Segment>) -> (r: Vec<SegmentFileRef>)
    ensures
        r@.len() == segments@.len(),
        forall|i: int| 0 <= i < r@.len() ==> is_segment_ref(#[trigger] r@[i], segments@[i]),
{
    let mut refs: Vec<SegmentFileRef> = Vec::new();
    let n = segments.len();
    let mut i: usize = 0;
    while i < n
        invariant
            n == segments@.len(),
            i <= n,
            refs@.len() == i,
            forall|j: int| 0 <= j < i ==> is_segment_ref(#[trigger] refs@[j], segments@[j]),
        decreases n - i,
    {
        let (path, kind) = segment_path(&segments[i].kind);
        let mut full = String::new();
        full.append("segments/");
        full.append(path.as_str());
        refs.push(SegmentFileRef { kind, path: full, bit_range: segments[i].bit_range });
        i = i + 1;
    }
    refs
}

/// The file, relative to the output directory, that holds the decoded
/// checkpoints: written only when there are any.
pub fn checkpoints_file(result: &AnnotationResult) -> (r: Option<String>)
    ensures
        result.checkpoints@.len() > 0 ==> (r matches Some(p) && p@ == "checkpoints.json"@),
        result.checkpoints@.len() == 0 ==> r is None,
{
    if result.checkpoints.len() > 0 {
        Some(String::from_str("checkpoints.json"))
    } else {
        None
    }
}

/// The file, relative to the output directory, that holds the VarDCT block
/// data of one LF group of a frame.
pub fn vardct_blocks_file(ann: &HfMetadataAnnotation) -> (r: String)
    ensures
        r@ == "segments/frame_"@ + decimal(ann.frame_idx as nat) + "/lf_group_"@ + decimal(ann.lf_group_idx as nat)
            + "/vardct_blocks.json"@,
{
    let mut out = String::from_str("segments/frame_");
    push_decimal(&mut out, ann.frame_idx as u64);
    out.append("/lf_group_");
    push_decimal(&mut out, ann.lf_group_idx as u64);
    out.append("/vardct_blocks.json");
    out
}

/// The result as the output directory holds it: the manifest lists the file
/// of each segment, in the order of the segments; nothing else changes.
pub fn with_segment_files(result: AnnotationResult) -> (r: AnnotationResult)
    ensures
        r.segments == result.segments,
        r.checkpoints == result.checkpoints,
        r.vardct_annotations == result.vardct_annotations,
        r.manifest.version == result.manifest.version,
        r.manifest.tool == result.manifest.tool,
        r.manifest.source_file == result.manifest.source_file,
        r.manifest.source_size == result.manifest.source_size,
        r.manifest.source_sha256 == result.manifest.source_sha256,
        r.manifest.image == result.manifest.image,
        r.manifest.frames == result.manifest.frames,
        r.manifest.segment_files@.len() == result.segments@.len(),
        forall|i: int| 0 <= i < r.segments@.len() ==>
            is_segment_ref(#[trigger] r.manifest.segment_files@[i], r.segments@[i]),
{
    let AnnotationResult { manifest, segments, checkpoints, vardct_annotations } = result;
    let refs = segment_file_refs(&segments);
    let AnnotationManifest { version, tool, source_file, source_size, source_sha256, image, frames, segment_files: _ } = manifest;
    let manifest = AnnotationManifest { version, tool, source_file, source_size, source_sha256, image, frames, segment_files: refs };
    AnnotationResult { manifest, segments, checkpoints, vardct_annotations }
}

} // verus!

verus! {

/// Why a decimal index could not be read (the kinds of `ParseIntError` that
/// reading a `u32` can give).
#[derive(Debug, PartialEq, Eq)]
pub enum IndexError {
    /// The index is empty.
    Empty,
    /// The index holds a character that is not a decimal digit.
    InvalidDigit,
    /// The index is larger than `u32::MAX`.
    PosOverflow,
}

/// Why a dotted segment path names no segment file.
#[derive(Debug, PartialEq, Eq)]
pub enum SegmentPathError {
    /// The path has none of the known shapes.
    UnknownSegmentPath,
    /// An index in the path is not a `u32`.
    InvalidIndex(IndexError),
}

/// The digit value of a character, if it is an ASCII decimal digit.
pub open spec fn is_digit(c: char) -> bool {
    '0' <= c && c <= '9'
}

/// Decimal digits read left to right onto `acc`, as `u32::from_str` reads
/// them: the first non-digit, or the first digit that takes the value past
/// `u32::MAX`, stops the reading with that error.
pub open spec fn parse_digits(d: Seq<char>, acc: nat) -> Result<nat, IndexError>
    decreases d.len(),
{
    if d.len() == 0 {
        Ok(acc)
    } else if !is_digit(d[0]) {
        Err(IndexError::InvalidDigit)
    } else if acc * 10 + (d[0] as nat - 48) > u32::MAX {
        Err(IndexError::PosOverflow)
    } else {
        parse_digits(d.drop_first(), (acc * 10 + (d[0] as nat - 48)) as nat)
    }
}

/// The value of `u32::from_str`: an optional `+`, then decimal digits.
pub open spec fn parse_u32(s: Seq<char>) -> Result<nat, IndexError> {
    if s.len() == 0 {
        Err(IndexError::Empty)
    } else if s =~= seq!['+'] || s =~= seq!['-'] {
        Err(IndexError::InvalidDigit)
    } else if s[0] == '+' {
        parse_digits(s.drop_first(), 0)
    } else {
        parse_digits(s, 0)
    }
}

/// The pieces of `s` between dots (`str::split('.')`).
pub open spec fn split_dot(s: Seq<char>) -> Seq<Seq<char>>
    decreases s.len(),
{
    if s.len() == 0 {
        seq![Seq::empty()]
    } else {
        let rest = split_dot(s.drop_last());
        if s.last() == '.' {
            rest.push(Seq::empty())
        } else {
            rest.update(rest.len() - 1, rest.last().push(s.last()))
        }
    }
}

/// Whether `s` begins with `prefix`.
pub open spec fn has_prefix(s: Seq<char>, prefix: Seq<char>) -> bool {
    prefix.len() <= s.len() && s.take(prefix.len() as int) == prefix
}

/// The file, relative to an annotation directory, that holds the segment
/// named by a dotted path such as `frame0.lf_group0.hf_metadata`: the file
/// under `segments` that `segment_path` gives for that segment.
pub open spec fn spec_segment_file(path: Seq<char>) -> Result<Seq<char>, SegmentPathError> {
    let parts = split_dot(path);
    if parts.len() == 1 && parts[0] == "signature"@ {
        Ok("segments/"@ + spec_segment_path(SegmentKind::Signature).0)
    } else if parts.len() == 1 && parts[0] == "image_header"@ {
        Ok("segments/"@ + spec_segment_path(SegmentKind::ImageHeader).0)
    } else if parts.len() == 2 && parts[1] == "header"@ && has_prefix(parts[0], "frame"@) {
        match parse_u32(parts[0].skip(5)) {
            Err(e) => Err(SegmentPathError::InvalidIndex(e)),
            Ok(f) => Ok("segments/"@ + ("frame_"@ + decimal(f) + "/header.json"@)),
        }
    } else if parts.len() == 2 && parts[1] == "hf_global"@ && has_prefix(parts[0], "frame"@) {
        match parse_u32(parts[0].skip(5)) {
            Err(e) => Err(SegmentPathError::InvalidIndex(e)),
            Ok(f) => Ok("segments/"@ + spec_segment_path(SegmentKind::HfGlobal { frame_idx: f as u32 }).0),
        }
    } else if parts.len() == 3 && parts[2] == "hf_metadata"@ && has_prefix(parts[0], "frame"@)
        && has_prefix(parts[1], "lf_group"@) {
        match parse_u32(parts[0].skip(5)) {
            Err(e) => Err(SegmentPathError::InvalidIndex(e)),
            Ok(f) => match parse_u32(parts[1].skip(8)) {
                Err(e) => Err(SegmentPathError::InvalidIndex(e)),
                Ok(l) => Ok("segments/"@ + spec_segment_path(
                    SegmentKind::HfMetadata { frame_idx: f as u32, lf_group_idx: l as u32 },
                ).0),
            },
        }
    } else if parts.len() == 4 && parts[3] == "hf_coeff"@ && has_prefix(parts[0], "frame"@)
        && has_prefix(parts[1], "pass"@) && has_prefix(parts[2], "group"@) {
        match parse_u32(parts[0].skip(5)) {
            Err(e) => Err(SegmentPathError::InvalidIndex(e)),
            Ok(f) => match parse_u32(parts[1].skip(4)) {
                Err(e) => Err(SegmentPathError::InvalidIndex(e)),
                Ok(p) => match parse_u32(parts[2].skip(5)) {
                    Err(e) => Err(SegmentPathError::InvalidIndex(e)),
                    Ok(g) => Ok("segments/"@ + spec_segment_path(SegmentKind::HfCoeff {
                        frame_idx: f as u32,
                        pass_idx: p as u32,
                        group_idx: g as u32,
                        ans_symbols_file: None,
                    }).0),
                },
            },
        }
    } else {
        Err(SegmentPathError::UnknownSegmentPath)
    }
}

/// The characters of a string, in order.
fn chars_of(s: &str) -> (r: Vec<char>)
    ensures
        r@ == s@,
{
    let n = s.unicode_len();
    let mut out: Vec<char> = Vec::new();
    let mut i: usize = 0;
    while i < n
        invariant
            n == s@.len(),
            i <= n,
            out@ == s@.take(i as int),
        decreases n - i,
    {
        out.push(s.get_char(i));
        i = i + 1;
        assert(out@ =~= s@.take(i as int));
    }
    assert(s@.take(n as int) =~= s@);
    out
}

/// Splits at every `.`.
fn split_dots(s: &Vec<char>) -> (r: Vec<Vec<char>>)
    ensures
        r@.len() == split_dot(s@).len(),
        forall|i: int| 0 <= i < r@.len() ==> #[trigger] r@[i]@ == split_dot(s@)[i],
{
    let mut parts: Vec<Vec<char>> = Vec::new();
    let mut cur: Vec<char> = Vec::new();
    let n = s.len();
    let mut i: usize = 0;
    while i < n
        invariant
            n == s@.len(),
            i <= n,
            split_dot(s@.take(i as int)).len() == parts@.len() + 1,
            forall|j: int| 0 <= j < parts@.len() ==> #[trigger] parts@[j]@ == split_dot(s@.take(i as int))[j],
            cur@ == split_dot(s@.take(i as int)).last(),
        decreases n - i,
    {
        let ghost before = s@.take(i as int);
        assert(s@.take(i + 1).drop_last() =~= before);
        if s[i] == '.' {
            parts.push(cur);
            cur = Vec::new();
        } else {
            cur.push(s[i]);
        }
        i = i + 1;
    }
    assert(s@.take(n as int) =~= s@);
    parts.push(cur);
    parts
}

/// Whether the characters `s` begin with the characters of `prefix`.
fn starts_with(s: &Vec<char>, prefix: &str) -> (r: bool)
    ensures
        r == has_prefix(s@, prefix@),
{
    let m = prefix.unicode_len();
    if m > s.len() {
        return false;
    }
    let mut i: usize = 0;
    while i < m
        invariant
            m == prefix@.len(),
            m <= s@.len(),
            i <= m,
            s@.take(i as int) == prefix@.take(i as int),
        decreases m - i,
    {
        if s[i] != prefix.get_char(i) {
            assert(s@.take(m as int)[i as int] != prefix@[i as int]);
            return false;
        }
        i = i + 1;
        assert(s@.take(i as int) =~= prefix@.take(i as int));
    }
    assert(prefix@.take(m as int) =~= prefix@);
    true
}

/// Whether the characters `s` are exactly those of `t`.
fn same_chars(s: &Vec<char>, t: &str) -> (r: bool)
    ensures
        r == (s@ == t@),
{
    let ok = starts_with(s, t);
    let same = ok && s.len() == t.unicode_len();
    proof {
        if same {
            assert(s@ =~= s@.take(t@.len() as int));
        }
        if s@ == t@ {
            assert(s@.take(t@.len() as int) =~= s@);
        }
    }
    same
}

/// Reads a `u32` from the characters of `d` from `start` on, as
/// `u32::from_str` does.
fn parse_index(d: &Vec<char>, start: usize) -> (r: Result<u32, IndexError>)
    requires
        start <= d@.len(),
    ensures
        match parse_u32(d@.skip(start as int)) {
            Ok(v) => r == Ok::<u32, IndexError>(v as u32) && v <= u32::MAX,
            Err(e) => r == Err::<u32, IndexError>(e),
        },
{
    let ghost s = d@.skip(start as int);
    let n = d.len();
    if start == n {
        return Err(IndexError::Empty);
    }
    if n - start == 1 && (d[start] == '+' || d[start] == '-') {
        assert(s =~= seq![d[start as int]]);
        return Err(IndexError::InvalidDigit);
    }
    let mut i = start;
    if d[start] == '+' {
        i = start + 1;
    }
    proof {
        assert(!(s =~= seq!['+']) && !(s =~= seq!['-'])) by {
            if s =~= seq!['+'] || s =~= seq!['-'] {
                assert(s.len() == 1);
            }
        }
        if d[start as int] == '+' {
            assert(s.drop_first() =~= d@.skip(i as int));
        } else {
            assert(s =~= d@.skip(i as int));
        }
    }
    let ghost digits = d@.skip(i as int);
    let mut acc: u64 = 0;
    while i < n
        invariant
            n == d@.len(),
            start < n,
            i <= n,
            acc <= u32::MAX,
            s == d@.skip(start as int),
            parse_u32(s) == parse_digits(d@.skip(i as int), acc as nat),
        decreases n - i,
    {
        let c = d[i];
        assert(d@.skip(i as int).len() > 0);
        assert(d@.skip(i as int)[0] == c);
        assert(d@.skip(i as int).drop_first() =~= d@.skip(i + 1));
        if !('0' <= c && c <= '9') {
            return Err(IndexError::InvalidDigit);
        }
        let v = acc * 10 + ((c as u32) - 48) as u64;
        assert(v as nat == acc as nat * 10 + (c as nat - 48));
        if v > 0xFFFF_FFFF {
            return Err(IndexError::PosOverflow);
        }
        acc = v;
        i = i + 1;
    }
    assert(d@.skip(i as int).len() == 0);
    Ok(acc as u32)
}

/// `segments/` followed by the file of a segment.
fn under_segments(kind: &SegmentKind) -> (r: String)
    ensures
        r@ == "segments/"@ + spec_segment_path(*kind).0,
{
    let mut out = String::new();
    out.append("segments/");
    let (path, _label) = segment_path(kind);
    out.append(path.as_str());
    out
}

/// The file, relative to an annotation directory, of the segment named by a
/// dotted path such as `frame0.lf_group0.hf_metadata`, `frame1.header`,
/// `frame1.hf_global`, `frame0.pass0.group3.hf_coeff`, `signature` or
/// `image_header`.
pub fn segment_file(segment_path: &str) -> (r: Result<String, SegmentPathError>)
    ensures
        match spec_segment_file(segment_path@) {
            Ok(p) => r matches Ok(f) && f@ == p,
            Err(e) => r == Err::<String, SegmentPathError>(e),
        },
{
    let chars = chars_of(segment_path);
    let parts = split_dots(&chars);
    let ghost sp = split_dot(segment_path@);
    let np = parts.len();
    if np == 1 && same_chars(&parts[0], "signature") {
        return Ok(under_segments(&SegmentKind::Signature));
    }
    if np == 1 && same_chars(&parts[0], "image_header") {
        return Ok(under_segments(&SegmentKind::ImageHeader));
    }
    if np == 2 && same_chars(&parts[1], "header") && starts_with(&parts[0], "frame") {
        proof { reveal_strlit("frame"); }
        let f = match parse_index(&parts[0], 5) {
            Ok(f) => f,
            Err(e) => {
                return Err(SegmentPathError::InvalidIndex(e));
            },
        };
        let mut out = String::new();
        out.append("segments/");
        let ghost o = out@;
        out.append("frame_");
        push_decimal(&mut out, f as u64);
        out.append("/header.json");
        assert(out@ =~= o + ("frame_"@ + decimal(f as nat) + "/header.json"@));
        return Ok(out);
    }
    if np == 2 && same_chars(&parts[1], "hf_global") && starts_with(&parts[0], "frame") {
        proof { reveal_strlit("frame"); }
        let f = match parse_index(&parts[0], 5) {
            Ok(f) => f,
            Err(e) => {
                return Err(SegmentPathError::InvalidIndex(e));
            },
        };
        return Ok(under_segments(&SegmentKind::HfGlobal { frame_idx: f }));
    }
    if np == 3 && same_chars(&parts[2], "hf_metadata") && starts_with(&parts[0], "frame")
        && starts_with(&parts[1], "lf_group") {
        proof {
            reveal_strlit("frame");
            reveal_strlit("lf_group");
        }
        let f = match parse_index(&parts[0], 5) {
            Ok(f) => f,
            Err(e) => {
                return Err(SegmentPathError::InvalidIndex(e));
            },
        };
        let l = match parse_index(&parts[1], 8) {
            Ok(l) => l,
            Err(e) => {
                return Err(SegmentPathError::InvalidIndex(e));
            },
        };
        return Ok(under_segments(&SegmentKind::HfMetadata { frame_idx: f, lf_group_idx: l }));
    }
    if np == 4 && same_chars(&parts[3], "hf_coeff") && starts_with(&parts[0], "frame")
        && starts_with(&parts[1], "pass") && starts_with(&parts[2], "group") {
        proof {
            reveal_strlit("frame");
            reveal_strlit("pass");
            reveal_strlit("group");
        }
        let f = match parse_index(&parts[0], 5) {
            Ok(f) => f,
            Err(e) => {
                return Err(SegmentPathError::InvalidIndex(e));
            },
        };
        let p = match parse_index(&parts[1], 4) {
            Ok(p) => p,
            Err(e) => {
                return Err(SegmentPathError::InvalidIndex(e));
            },
        };
        let g = match parse_index(&parts[2], 5) {
            Ok(g) => g,
            Err(e) => {
                return Err(SegmentPathError::InvalidIndex(e));
            },
        };
        return Ok(under_segments(&SegmentKind::HfCoeff {
            frame_idx: f,
            pass_idx: p,
            group_idx: g,
            ans_symbols_file: None,
        }));
    }
    Err(SegmentPathError::UnknownSegmentPath)
}


/// Whether `s` holds no `.`.
pub open spec fn no_dot(s: Seq<char>) -> bool {
    forall|i: int| 0 <= i < s.len() ==> s[i] != '.'
}

proof fn lemma_split_append(x: Seq<char>, y: Seq<char>)
    requires
        no_dot(y),
    ensures
        split_dot(x + y) == split_dot(x).update(
            split_dot(x).len() - 1,
            split_dot(x).last() + y,
        ),
        split_dot(x + y).len() == split_dot(x).len(),
    decreases y.len(),
{
    lemma_split_nonempty(x);
    if y.len() == 0 {
        assert(x + y =~= x);
        assert(split_dot(x).last() + y =~= split_dot(x).last());
        assert(split_dot(x).update(split_dot(x).len() - 1, split_dot(x).last()) =~= split_dot(x));
    } else {
        let y0 = y.drop_last();
        lemma_split_append(x, y0);
        assert((x + y).drop_last() =~= x + y0);
        assert((x + y).last() == y.last());
        lemma_split_nonempty(x + y0);
        let r = split_dot(x + y0);
        assert(r.last() =~= split_dot(x).last() + y0);
        assert(r.last().push(y.last()) =~= split_dot(x).last() + y);
        assert(split_dot(x + y) =~= split_dot(x).update(split_dot(x).len() - 1, split_dot(x).last() + y));
    }
}

proof fn lemma_split_nonempty(x: Seq<char>)
    ensures
        split_dot(x).len() >= 1,
    decreases x.len(),
{
    if x.len() > 0 {
        lemma_split_nonempty(x.drop_last());
    }
}

/// Pieces without dots, joined by dots, split back into those pieces.
proof fn lemma_split_join3(a: Seq<char>, b: Seq<char>, c: Seq<char>)
    requires
        no_dot(a),
        no_dot(b),
        no_dot(c),
    ensures
        split_dot(a + seq!['.'] + b + seq!['.'] + c) == seq![a, b, c],
        split_dot(a + seq!['.'] + b) == seq![a, b],
        split_dot(a) == seq![a],
{
    let e = Seq::<char>::empty();
    lemma_split_append(e, a);
    assert(e + a =~= a);
    assert(split_dot(e) =~= seq![e]);
    assert(split_dot(a) =~= seq![a]);
    let a1 = a + seq!['.'];
    assert(a1.drop_last() =~= a);
    assert(split_dot(a1) =~= seq![a, e]);
    lemma_split_append(a1, b);
    assert(split_dot(a1 + b) =~= seq![a, b]);
    let b1 = a1 + b + seq!['.'];
    assert(b1.drop_last() =~= a1 + b);
    assert(split_dot(b1) =~= seq![a, b, e]);
    lemma_split_append(b1, c);
    assert(split_dot(b1 + c) =~= seq![a, b, c]);
}

/// Pieces without dots, joined by dots, split back into those pieces.
proof fn lemma_split_join4(a: Seq<char>, b: Seq<char>, c: Seq<char>, d: Seq<char>)
    requires
        no_dot(a),
        no_dot(b),
        no_dot(c),
        no_dot(d),
    ensures
        split_dot(a + seq!['.'] + b + seq!['.'] + c + seq!['.'] + d) == seq![a, b, c, d],
{
    lemma_split_join3(a, b, c);
    let e = Seq::<char>::empty();
    let x = a + seq!['.'] + b + seq!['.'] + c + seq!['.'];
    assert(x.drop_last() =~= a + seq!['.'] + b + seq!['.'] + c);
    assert(split_dot(x) =~= seq![a, b, c, e]);
    lemma_split_append(x, d);
    assert(split_dot(x + d) =~= seq![a, b, c, d]);
}

/// Digits read after a prefix continue from the prefix's value.
proof fn lemma_parse_digits_append(x: Seq<char>, y: Seq<char>, acc: nat)
    ensures
        parse_digits(x + y, acc) == match parse_digits(x, acc) {
            Ok(a) => parse_digits(y, a),
            Err(e) => Err(e),
        },
    decreases x.len(),
{
    if x.len() == 0 {
        assert(x + y =~= y);
    } else {
        assert((x + y)[0] == x[0]);
        assert((x + y).drop_first() =~= x.drop_first() + y);
        if is_digit(x[0]) && acc * 10 + (x[0] as nat - 48) <= u32::MAX {
            lemma_parse_digits_append(x.drop_first(), y, (acc * 10 + (x[0] as nat - 48)) as nat);
        }
    }
}

proof fn lemma_digit_char(d: nat)
    requires
        d < 10,
    ensures
        crate::text::digit_char(d) as nat == 48 + d,
        is_digit(crate::text::digit_char(d)),
        crate::text::digit_char(d) != '.',
{
    let b = (48 + d) as u8;
    assert(b as nat == 48 + d);
    assert((b as char) as nat == b as nat);
}

/// The decimal numeral of a `u32` is read back as that number.
proof fn lemma_parse_decimal(n: nat)
    requires
        n <= u32::MAX,
    ensures
        parse_digits(decimal(n), 0) == Ok::<nat, IndexError>(n),
        no_dot(decimal(n)),
        decimal(n).len() >= 1,
        is_digit(decimal(n)[0]),
    decreases n,
{
    lemma_digit_char(n % 10);
    let d = crate::text::digit_char(n % 10);
    if n < 10 {
        assert(n % 10 == n);
        assert(decimal(n) =~= seq![d]);
        assert(decimal(n).drop_first() =~= Seq::<char>::empty());
        assert(parse_digits(decimal(n).drop_first(), n) == Ok::<nat, IndexError>(n));
        assert(decimal(n)[0] == d);
        assert(0 * 10 + (d as nat - 48) == n);
    } else {
        lemma_parse_decimal(n / 10);
        assert(decimal(n) =~= decimal(n / 10) + seq![d]);
        lemma_parse_digits_append(decimal(n / 10), seq![d], 0);
        assert(seq![d].drop_first() =~= Seq::<char>::empty());
        assert((n / 10) * 10 + n % 10 == n) by (nonlinear_arith);
        assert(seq![d][0] == d);
        assert((n / 10) * 10 + (d as nat - 48) == n);
        assert(parse_digits(seq![d].drop_first(), n) == Ok::<nat, IndexError>(n));
        assert(parse_digits(seq![d], n / 10) == Ok::<nat, IndexError>(n));
        assert(decimal(n)[0] == decimal(n / 10)[0]);
    }
}

/// The number of a `u32` written after a word of letters is read back from
/// behind the word.
proof fn lemma_word_index(word: Seq<char>, n: nat)
    requires
        n <= u32::MAX,
        no_dot(word),
    ensures
        no_dot(word + decimal(n)),
        has_prefix(word + decimal(n), word),
        parse_u32((word + decimal(n)).skip(word.len() as int)) == Ok::<nat, IndexError>(n),
{
    lemma_parse_decimal(n);
    let s = word + decimal(n);
    assert(s.take(word.len() as int) =~= word);
    assert(s.skip(word.len() as int) =~= decimal(n));
    let d = decimal(n);
    assert(!(d =~= seq!['+']) && !(d =~= seq!['-'])) by {
        if d =~= seq!['+'] || d =~= seq!['-'] {
            assert(is_digit(d[0]));
        }
    }
}

/// The dotted path of the VarDCT metadata of an LF group names the file that
/// `segment_path` gives that segment: `frame{f}.lf_group{l}.hf_metadata`.
pub proof fn lemma_hf_metadata_path_finds_file(f: u32, l: u32)
    ensures
        spec_segment_file("frame"@ + decimal(f as nat) + seq!['.'] + "lf_group"@ + decimal(l as nat)
            + seq!['.'] + "hf_metadata"@) == Ok::<Seq<char>, SegmentPathError>(
            "segments/"@ + spec_segment_path(SegmentKind::HfMetadata { frame_idx: f, lf_group_idx: l }).0,
        ),
{
    reveal_strlit("frame");
    reveal_strlit("lf_group");
    reveal_strlit("hf_metadata");
    lemma_word_index("frame"@, f as nat);
    lemma_word_index("lf_group"@, l as nat);
    let a = "frame"@ + decimal(f as nat);
    let b = "lf_group"@ + decimal(l as nat);
    lemma_split_join3(a, b, "hf_metadata"@);
    assert("frame"@ + decimal(f as nat) + seq!['.'] + "lf_group"@ + decimal(l as nat) + seq!['.']
        + "hf_metadata"@ =~= a + seq!['.'] + b + seq!['.'] + "hf_metadata"@);
}

/// The dotted path of the HF coefficients of a group in a pass names the file
/// that `segment_path` gives that segment: `frame{f}.pass{p}.group{g}.hf_coeff`.
pub proof fn lemma_hf_coeff_path_finds_file(f: u32, p: u32, g: u32)
    ensures
        spec_segment_file("frame"@ + decimal(f as nat) + seq!['.'] + "pass"@ + decimal(p as nat)
            + seq!['.'] + "group"@ + decimal(g as nat) + seq!['.'] + "hf_coeff"@)
            == Ok::<Seq<char>, SegmentPathError>("segments/"@ + spec_segment_path(SegmentKind::HfCoeff {
                frame_idx: f,
                pass_idx: p,
                group_idx: g,
                ans_symbols_file: None,
            }).0),
{
    reveal_strlit("frame");
    reveal_strlit("pass");
    reveal_strlit("group");
    reveal_strlit("hf_coeff");
    lemma_word_index("frame"@, f as nat);
    lemma_word_index("pass"@, p as nat);
    lemma_word_index("group"@, g as nat);
    let a = "frame"@ + decimal(f as nat);
    let b = "pass"@ + decimal(p as nat);
    let c = "group"@ + decimal(g as nat);
    lemma_split_join4(a, b, c, "hf_coeff"@);
    assert("frame"@ + decimal(f as nat) + seq!['.'] + "pass"@ + decimal(p as nat) + seq!['.'] + "group"@
        + decimal(g as nat) + seq!['.'] + "hf_coeff"@ =~= a + seq!['.'] + b + seq!['.'] + c + seq!['.']
        + "hf_coeff"@);
}

/// The dotted path of a frame's global HF data names the file that
/// `segment_path` gives that segment: `frame{f}.hf_global`.
pub proof fn lemma_hf_global_path_finds_file(f: u32)
    ensures
        spec_segment_file("frame"@ + decimal(f as nat) + seq!['.'] + "hf_global"@)
            == Ok::<Seq<char>, SegmentPathError>(
            "segments/"@ + spec_segment_path(SegmentKind::HfGlobal { frame_idx: f }).0,
        ),
{
    reveal_strlit("frame");
    reveal_strlit("hf_global");
    reveal_strlit("header");
    lemma_word_index("frame"@, f as nat);
    let a = "frame"@ + decimal(f as nat);
    lemma_split_join3(a, "hf_global"@, Seq::empty());
    let parts = split_dot(a + seq!['.'] + "hf_global"@);
    assert(parts == seq![a, "hf_global"@]);
    assert(parts[1] != "header"@);
    assert(parse_u32(parts[0].skip(5)) == Ok::<nat, IndexError>(f as nat));
}

/// The dotted path of a frame header names the file that `segment_path`
/// gives the header of that frame, whatever its encoding: `frame{f}.header`.
pub proof fn lemma_frame_header_path_finds_file(f: u32, encoding: String)
    ensures
        spec_segment_file("frame"@ + decimal(f as nat) + seq!['.'] + "header"@)
            == Ok::<Seq<char>, SegmentPathError>(
            "segments/"@ + spec_segment_path(SegmentKind::FrameHeader { frame_idx: f, encoding }).0,
        ),
{
    reveal_strlit("frame");
    reveal_strlit("header");
    lemma_word_index("frame"@, f as nat);
    let a = "frame"@ + decimal(f as nat);
    lemma_split_join3(a, "header"@, Seq::empty());
    let parts = split_dot(a + seq!['.'] + "header"@);
    assert(parts == seq![a, "header"@]);
    assert(parse_u32(parts[0].skip(5)) == Ok::<nat, IndexError>(f as nat));
}

/// The single-word paths `signature` and `image_header` name the files of
/// those segments.
pub proof fn lemma_header_paths_find_files()
    ensures
        spec_segment_file("signature"@) == Ok::<Seq<char>, SegmentPathError>(
            "segments/"@ + spec_segment_path(SegmentKind::Signature).0,
        ),
        spec_segment_file("image_header"@) == Ok::<Seq<char>, SegmentPathError>(
            "segments/"@ + spec_segment_path(SegmentKind::ImageHeader).0,
        ),
{
    reveal_strlit("signature");
    reveal_strlit("image_header");
    lemma_split_join3("signature"@, Seq::empty(), Seq::empty());
    lemma_split_join3("image_header"@, Seq::empty(), Seq::empty());
}


/// Every character of a decimal numeral is a digit.
proof fn lemma_decimal_digits(n: nat)
    requires
        n <= u32::MAX,
    ensures
        forall|i: int| 0 <= i < decimal(n).len() ==> is_digit(#[trigger] decimal(n)[i]),
    decreases n,
{
    lemma_digit_char(n % 10);
    if n >= 10 {
        lemma_decimal_digits(n / 10);
        assert forall|i: int| 0 <= i < decimal(n).len() implies is_digit(#[trigger] decimal(n)[i]) by {
            if i < decimal(n / 10).len() {
                assert(decimal(n)[i] == decimal(n / 10)[i]);
            }
        }
    } else {
        assert(n % 10 == n);
    }
}

/// Pieces free of the separator, each followed by it, split apart again.
proof fn lemma_split_at_sep(x1: Seq<char>, t1: Seq<char>, x2: Seq<char>, t2: Seq<char>, c: char)
    requires
        forall|i: int| 0 <= i < x1.len() ==> #[trigger] x1[i] != c,
        forall|i: int| 0 <= i < x2.len() ==> #[trigger] x2[i] != c,
        x1 + seq![c] + t1 == x2 + seq![c] + t2,
    ensures
        x1 == x2,
        t1 == t2,
{
    let p = x1 + seq![c] + t1;
    let q = x2 + seq![c] + t2;
    if x1.len() < x2.len() {
        assert(p[x1.len() as int] == c);
        assert(q[x1.len() as int] == x2[x1.len() as int]);
    }
    if x2.len() < x1.len() {
        assert(q[x2.len() as int] == c);
        assert(p[x2.len() as int] == x1[x2.len() as int]);
    }
    assert(x1 =~= p.take(x1.len() as int));
    assert(x2 =~= q.take(x2.len() as int));
    assert(t1 =~= p.skip(x1.len() as int + 1));
    assert(t2 =~= q.skip(x2.len() as int + 1));
}

/// Two `u32` numerals that are split off the same way give the same number
/// and the same rest.
proof fn lemma_split_numerals(a: nat, t1: Seq<char>, b: nat, t2: Seq<char>, c: char)
    requires
        a <= u32::MAX,
        b <= u32::MAX,
        !is_digit(c),
        decimal(a) + seq![c] + t1 == decimal(b) + seq![c] + t2,
    ensures
        a == b,
        t1 == t2,
{
    lemma_decimal_digits(a);
    lemma_decimal_digits(b);
    lemma_split_at_sep(decimal(a), t1, decimal(b), t2, c);
    lemma_parse_decimal(a);
    lemma_parse_decimal(b);
}

/// Which of the four groups of files a kind belongs to: container boxes,
/// the signature, the image header, and the files of a frame.
pub open spec fn file_group(k: SegmentKind) -> int {
    match k {
        SegmentKind::Container { .. } => 0,
        SegmentKind::Signature => 1,
        SegmentKind::ImageHeader => 2,
        _ => 3,
    }
}

/// The frame whose directory holds the file of a kind.
pub open spec fn file_frame(k: SegmentKind) -> u32 {
    match k {
        SegmentKind::FrameHeader { frame_idx, .. } => frame_idx,
        SegmentKind::Toc { frame_idx } => frame_idx,
        SegmentKind::LfGlobal { frame_idx } => frame_idx,
        SegmentKind::HfGlobal { frame_idx } => frame_idx,
        SegmentKind::HfMetadata { frame_idx, .. } => frame_idx,
        SegmentKind::LfCoeff { frame_idx, .. } => frame_idx,
        SegmentKind::HfCoeff { frame_idx, .. } => frame_idx,
        SegmentKind::ModularGlobal { frame_idx } => frame_idx,
        SegmentKind::ModularGroup { frame_idx, .. } => frame_idx,
        _ => 0,
    }
}

/// The part of a frame file's path after the frame's directory.
pub open spec fn frame_file_tail(k: SegmentKind) -> Seq<char> {
    match k {
        SegmentKind::FrameHeader { .. } => "header.json"@,
        SegmentKind::Toc { .. } => "toc.json"@,
        SegmentKind::LfGlobal { .. } => "lf_global.json"@,
        SegmentKind::HfGlobal { .. } => "hf_global.json"@,
        SegmentKind::HfMetadata { lf_group_idx, .. } =>
            "lf_group_"@ + decimal(lf_group_idx as nat) + seq!['/'] + "hf_metadata.json"@,
        SegmentKind::LfCoeff { lf_group_idx, .. } =>
            "lf_group_"@ + decimal(lf_group_idx as nat) + seq!['/'] + "lf_coeff.json"@,
        SegmentKind::HfCoeff { pass_idx, group_idx, .. } =>
            "pass_"@ + decimal(pass_idx as nat) + seq!['/'] + "group_"@ + decimal(group_idx as nat) + seq!['/']
                + "hf_coeff.json"@,
        SegmentKind::ModularGlobal { .. } => "modular_global.json"@,
        SegmentKind::ModularGroup { group_idx, .. } =>
            "modular_group_"@ + decimal(group_idx as nat) + seq!['.'] + "json"@,
        _ => Seq::empty(),
    }
}

/// A frame's file path is the frame's directory and the tail.
proof fn lemma_frame_file_form(k: SegmentKind)
    requires
        file_group(k) == 3,
    ensures
        spec_segment_path(k).0 == "frame_"@ + decimal(file_frame(k) as nat) + seq!['/'] + frame_file_tail(k),
{
    reveal_strlit("frame_");
    reveal_strlit("/header.json");
    reveal_strlit("header.json");
    reveal_strlit("/toc.json");
    reveal_strlit("toc.json");
    reveal_strlit("/lf_global.json");
    reveal_strlit("lf_global.json");
    reveal_strlit("/hf_global.json");
    reveal_strlit("hf_global.json");
    reveal_strlit("/lf_group_");
    reveal_strlit("lf_group_");
    reveal_strlit("/hf_metadata.json");
    reveal_strlit("hf_metadata.json");
    reveal_strlit("/lf_coeff.json");
    reveal_strlit("lf_coeff.json");
    reveal_strlit("/pass_");
    reveal_strlit("pass_");
    reveal_strlit("/group_");
    reveal_strlit("group_");
    reveal_strlit("/hf_coeff.json");
    reveal_strlit("hf_coeff.json");
    reveal_strlit("/modular_global.json");
    reveal_strlit("modular_global.json");
    reveal_strlit("/modular_group_");
    reveal_strlit("modular_group_");
    reveal_strlit(".json");
    reveal_strlit("json");
    let d = decimal(file_frame(k) as nat);
    let f = "frame_"@;
    let sl = seq!['/'];
    match k {
        SegmentKind::FrameHeader { .. } => {
            assert(spec_segment_path(k).0 =~= f + d + sl + frame_file_tail(k));
        },
        SegmentKind::Toc { .. } => {
            assert(spec_segment_path(k).0 =~= f + d + sl + frame_file_tail(k));
        },
        SegmentKind::LfGlobal { .. } => {
            assert(spec_segment_path(k).0 =~= f + d + sl + frame_file_tail(k));
        },
        SegmentKind::HfGlobal { .. } => {
            assert(spec_segment_path(k).0 =~= f + d + sl + frame_file_tail(k));
        },
        SegmentKind::HfMetadata { .. } => {
            assert(spec_segment_path(k).0 =~= f + d + sl + frame_file_tail(k));
        },
        SegmentKind::LfCoeff { .. } => {
            assert(spec_segment_path(k).0 =~= f + d + sl + frame_file_tail(k));
        },
        SegmentKind::HfCoeff { .. } => {
            assert(spec_segment_path(k).0 =~= f + d + sl + frame_file_tail(k));
        },
        SegmentKind::ModularGlobal { .. } => {
            assert(spec_segment_path(k).0 =~= f + d + sl + frame_file_tail(k));
        },
        SegmentKind::ModularGroup { .. } => {
            assert(spec_segment_path(k).0 =~= f + d + sl + frame_file_tail(k));
        },
        _ => {},
    }
}


/// Reveals the texts of the file names.
proof fn reveal_file_texts()
    ensures
        "frame_"@ == seq!['f', 'r', 'a', 'm', 'e', '_'],
        "header.json"@.len() == 11 && "header.json"@[0] == 'h' && "header.json"@[1] == 'e',
        "toc.json"@.len() == 8 && "toc.json"@[0] == 't',
        "lf_global.json"@.len() == 14 && "lf_global.json"@[0] == 'l' && "lf_global.json"@[4] == 'l',
        "hf_global.json"@.len() == 14 && "hf_global.json"@[0] == 'h' && "hf_global.json"@[1] == 'f',
        "lf_group_"@.len() == 9 && "lf_group_"@[0] == 'l' && "lf_group_"@[4] == 'r',
        "hf_metadata.json"@.len() == 16 && "hf_metadata.json"@[0] == 'h',
        "lf_coeff.json"@.len() == 13 && "lf_coeff.json"@[0] == 'l',
        "pass_"@.len() == 5 && "pass_"@[0] == 'p',
        "group_"@.len() == 6,
        "modular_global.json"@.len() == 19 && "modular_global.json"@[0] == 'm' && "modular_global.json"@[9] == 'l',
        "modular_group_"@.len() == 14 && "modular_group_"@[0] == 'm' && "modular_group_"@[9] == 'r',
        "container_"@.len() == 10 && "container_"@[0] == 'c',
        ".json"@.len() == 5,
        "signature.json"@.len() > 0 && "signature.json"@[0] == 's',
        "image_header.json"@.len() > 0 && "image_header.json"@[0] == 'i',
{
    reveal_strlit("frame_");
    reveal_strlit("header.json");
    reveal_strlit("toc.json");
    reveal_strlit("lf_global.json");
    reveal_strlit("hf_global.json");
    reveal_strlit("lf_group_");
    reveal_strlit("hf_metadata.json");
    reveal_strlit("lf_coeff.json");
    reveal_strlit("pass_");
    reveal_strlit("group_");
    reveal_strlit("modular_global.json");
    reveal_strlit("modular_group_");
    reveal_strlit("container_");
    reveal_strlit(".json");
    reveal_strlit("signature.json");
    reveal_strlit("image_header.json");
}

/// The kind of frame file a tail names, read off its first characters;
/// the metadata and the LF coefficients of an LF group share a class.
pub open spec fn tail_class(t: Seq<char>) -> int {
    if t[0] == 't' {
        1
    } else if t[0] == 'h' {
        if t[1] == 'e' { 0 } else { 3 }
    } else if t[0] == 'l' {
        if t[4] == 'l' { 2 } else { 4 }
    } else if t[0] == 'p' {
        5
    } else if t[9] == 'l' {
        6
    } else {
        7
    }
}

/// The class of a frame file kind.
pub open spec fn frame_class(k: SegmentKind) -> int {
    match k {
        SegmentKind::FrameHeader { .. } => 0,
        SegmentKind::Toc { .. } => 1,
        SegmentKind::LfGlobal { .. } => 2,
        SegmentKind::HfGlobal { .. } => 3,
        SegmentKind::HfMetadata { .. } => 4,
        SegmentKind::LfCoeff { .. } => 4,
        SegmentKind::HfCoeff { .. } => 5,
        SegmentKind::ModularGlobal { .. } => 6,
        SegmentKind::ModularGroup { .. } => 7,
        _ => -1,
    }
}

proof fn lemma_tail_class(k: SegmentKind)
    requires
        file_group(k) == 3,
    ensures
        tail_class(frame_file_tail(k)) == frame_class(k),
{
    reveal_file_texts();
    let t = frame_file_tail(k);
    match k {
        SegmentKind::HfMetadata { lf_group_idx, .. } => {
            let w = "lf_group_"@ + decimal(lf_group_idx as nat) + seq!['/'] + "hf_metadata.json"@;
            assert(w[0] == 'l' && w[4] == 'r');
        },
        SegmentKind::LfCoeff { lf_group_idx, .. } => {
            let w = "lf_group_"@ + decimal(lf_group_idx as nat) + seq!['/'] + "lf_coeff.json"@;
            assert(w[0] == 'l' && w[4] == 'r');
        },
        SegmentKind::HfCoeff { pass_idx, group_idx, .. } => {
            assert(t[0] == "pass_"@[0]);
        },
        SegmentKind::ModularGroup { group_idx, .. } => {
            let w = "modular_group_"@ + decimal(group_idx as nat) + seq!['.'] + "json"@;
            assert(w[0] == 'm' && w[9] == 'r');
        },
        _ => {},
    }
}

/// Two segment kinds whose segments go to the same file: equal once the
/// encoding of a frame header and the symbol file of HF coefficients are
/// set aside.
pub open spec fn same_file(k1: SegmentKind, k2: SegmentKind) -> bool {
    match (k1, k2) {
        (SegmentKind::Container { box_type: a }, SegmentKind::Container { box_type: b }) => a@ == b@,
        (SegmentKind::Signature, SegmentKind::Signature) => true,
        (SegmentKind::ImageHeader, SegmentKind::ImageHeader) => true,
        (SegmentKind::FrameHeader { frame_idx: f, .. }, SegmentKind::FrameHeader { frame_idx: g, .. }) => f == g,
        (SegmentKind::Toc { frame_idx: f }, SegmentKind::Toc { frame_idx: g }) => f == g,
        (SegmentKind::LfGlobal { frame_idx: f }, SegmentKind::LfGlobal { frame_idx: g }) => f == g,
        (SegmentKind::HfGlobal { frame_idx: f }, SegmentKind::HfGlobal { frame_idx: g }) => f == g,
        (
            SegmentKind::HfMetadata { frame_idx: f, lf_group_idx: l },
            SegmentKind::HfMetadata { frame_idx: g, lf_group_idx: m },
        ) => f == g && l == m,
        (
            SegmentKind::LfCoeff { frame_idx: f, lf_group_idx: l },
            SegmentKind::LfCoeff { frame_idx: g, lf_group_idx: m },
        ) => f == g && l == m,
        (
            SegmentKind::HfCoeff { frame_idx: f, pass_idx: p, group_idx: x, .. },
            SegmentKind::HfCoeff { frame_idx: g, pass_idx: q, group_idx: y, .. },
        ) => f == g && p == q && x == y,
        (SegmentKind::ModularGlobal { frame_idx: f }, SegmentKind::ModularGlobal { frame_idx: g }) => f == g,
        (
            SegmentKind::ModularGroup { frame_idx: f, group_idx: x },
            SegmentKind::ModularGroup { frame_idx: g, group_idx: y },
        ) => f == g && x == y,
        _ => false,
    }
}

/// Split a word off the front of both sides.
proof fn lemma_drop_word(w: Seq<char>, x: Seq<char>, y: Seq<char>)
    requires
        w + x == w + y,
    ensures
        x == y,
{
    assert(x =~= (w + x).skip(w.len() as int));
    assert(y =~= (w + y).skip(w.len() as int));
}

proof fn lemma_lf_group_tails(l1: u32, r1: Seq<char>, l2: u32, r2: Seq<char>)
    requires
        "lf_group_"@ + decimal(l1 as nat) + seq!['/'] + r1 == "lf_group_"@ + decimal(l2 as nat) + seq!['/'] + r2,
    ensures
        l1 == l2,
        r1 == r2,
{
    let sl = seq!['/'];
    let w = "lf_group_"@;
    assert(w + decimal(l1 as nat) + sl + r1 =~= w + (decimal(l1 as nat) + sl + r1));
    assert(w + decimal(l2 as nat) + sl + r2 =~= w + (decimal(l2 as nat) + sl + r2));
    lemma_drop_word(w, decimal(l1 as nat) + sl + r1, decimal(l2 as nat) + sl + r2);
    lemma_split_numerals(l1 as nat, r1, l2 as nat, r2, '/');
}

proof fn lemma_pass_tails(p1: u32, g1: u32, p2: u32, g2: u32)
    requires
        "pass_"@ + decimal(p1 as nat) + seq!['/'] + "group_"@ + decimal(g1 as nat) + seq!['/'] + "hf_coeff.json"@
            == "pass_"@ + decimal(p2 as nat) + seq!['/'] + "group_"@ + decimal(g2 as nat) + seq!['/'] + "hf_coeff.json"@,
    ensures
        p1 == p2,
        g1 == g2,
{
    let sl = seq!['/'];
    let r = "hf_coeff.json"@;
    let rest1 = "group_"@ + decimal(g1 as nat) + sl + r;
    let rest2 = "group_"@ + decimal(g2 as nat) + sl + r;
    assert("pass_"@ + decimal(p1 as nat) + sl + "group_"@ + decimal(g1 as nat) + sl + r
        =~= "pass_"@ + (decimal(p1 as nat) + sl + rest1));
    assert("pass_"@ + decimal(p2 as nat) + sl + "group_"@ + decimal(g2 as nat) + sl + r
        =~= "pass_"@ + (decimal(p2 as nat) + sl + rest2));
    lemma_drop_word("pass_"@, decimal(p1 as nat) + sl + rest1, decimal(p2 as nat) + sl + rest2);
    lemma_split_numerals(p1 as nat, rest1, p2 as nat, rest2, '/');
    assert(rest1 =~= "group_"@ + (decimal(g1 as nat) + sl + r));
    assert(rest2 =~= "group_"@ + (decimal(g2 as nat) + sl + r));
    lemma_drop_word("group_"@, decimal(g1 as nat) + sl + r, decimal(g2 as nat) + sl + r);
    lemma_split_numerals(g1 as nat, r, g2 as nat, r, '/');
}

proof fn lemma_modular_group_tails(g1: u32, g2: u32)
    requires
        "modular_group_"@ + decimal(g1 as nat) + seq!['.'] + "json"@ == "modular_group_"@ + decimal(g2 as nat)
            + seq!['.'] + "json"@,
    ensures
        g1 == g2,
{
    let r = "json"@;
    let dt = seq!['.'];
    let w = "modular_group_"@;
    assert(w + decimal(g1 as nat) + dt + r =~= w + (decimal(g1 as nat) + dt + r));
    assert(w + decimal(g2 as nat) + dt + r =~= w + (decimal(g2 as nat) + dt + r));
    lemma_drop_word(w, decimal(g1 as nat) + dt + r, decimal(g2 as nat) + dt + r);
    lemma_split_numerals(g1 as nat, r, g2 as nat, r, '.');
}

/// Frame files with the same tail belong to segments with the same file.
proof fn lemma_same_tail_same_file(k1: SegmentKind, k2: SegmentKind)
    requires
        file_group(k1) == 3,
        file_group(k2) == 3,
        file_frame(k1) == file_frame(k2),
        frame_file_tail(k1) == frame_file_tail(k2),
    ensures
        same_file(k1, k2),
{
    lemma_tail_class(k1);
    lemma_tail_class(k2);
    match k1 {
        SegmentKind::HfMetadata { lf_group_idx: l1, .. } => {
            match k2 {
                SegmentKind::HfMetadata { lf_group_idx: l2, .. } => {
                    lemma_lf_group_tails(l1, "hf_metadata.json"@, l2, "hf_metadata.json"@);
                },
                SegmentKind::LfCoeff { lf_group_idx: l2, .. } => {
                    lemma_lf_group_tails(l1, "hf_metadata.json"@, l2, "lf_coeff.json"@);
                    reveal_file_texts();
                },
                _ => {},
            }
        },
        SegmentKind::LfCoeff { lf_group_idx: l1, .. } => {
            match k2 {
                SegmentKind::LfCoeff { lf_group_idx: l2, .. } => {
                    lemma_lf_group_tails(l1, "lf_coeff.json"@, l2, "lf_coeff.json"@);
                },
                SegmentKind::HfMetadata { lf_group_idx: l2, .. } => {
                    lemma_lf_group_tails(l1, "lf_coeff.json"@, l2, "hf_metadata.json"@);
                    reveal_file_texts();
                },
                _ => {},
            }
        },
        SegmentKind::HfCoeff { pass_idx: p1, group_idx: g1, .. } => {
            match k2 {
                SegmentKind::HfCoeff { pass_idx: p2, group_idx: g2, .. } => {
                    lemma_pass_tails(p1, g1, p2, g2);
                },
                _ => {},
            }
        },
        SegmentKind::ModularGroup { group_idx: g1, .. } => {
            match k2 {
                SegmentKind::ModularGroup { group_idx: g2, .. } => {
                    lemma_modular_group_tails(g1, g2);
                },
                _ => {},
            }
        },
        _ => {},
    }
}


proof fn lemma_container_names(a: Seq<char>, b: Seq<char>)
    requires
        "container_"@ + a + ".json"@ == "container_"@ + b + ".json"@,
    ensures
        a == b,
{
    reveal_file_texts();
    let p = "container_"@ + a + ".json"@;
    let q = "container_"@ + b + ".json"@;
    assert(p.len() == 15 + a.len());
    assert(q.len() == 15 + b.len());
    assert(a =~= p.subrange(10, 10 + a.len() as int));
    assert(b =~= q.subrange(10, 10 + b.len() as int));
}

/// The first character of each file path tells the group of its kind.
proof fn lemma_file_first_char(k: SegmentKind)
    ensures
        spec_segment_path(k).0.len() > 0,
        spec_segment_path(k).0[0] == (if file_group(k) == 0 {
            'c'
        } else if file_group(k) == 1 {
            's'
        } else if file_group(k) == 2 {
            'i'
        } else {
            'f'
        }),
{
    reveal_file_texts();
    if file_group(k) == 3 {
        lemma_frame_file_form(k);
        let d = decimal(file_frame(k) as nat);
        assert(("frame_"@ + d + seq!['/'] + frame_file_tail(k))[0] == 'f');
    }
}

/// Two segments are written to the same file exactly when they are of the
/// same kind with the same indices (the encoding of a frame header and the
/// symbol file of HF coefficients set aside): segments of different
/// frames, groups, passes or sections never share a file.
pub proof fn lemma_segment_files_distinct(k1: SegmentKind, k2: SegmentKind)
    ensures
        (spec_segment_path(k1).0 == spec_segment_path(k2).0) == same_file(k1, k2),
{
    let p1 = spec_segment_path(k1).0;
    let p2 = spec_segment_path(k2).0;
    if p1 == p2 {
        lemma_file_first_char(k1);
        lemma_file_first_char(k2);
        assert(file_group(k1) == file_group(k2));
        if file_group(k1) == 3 {
            lemma_frame_file_form(k1);
            lemma_frame_file_form(k2);
            let sl = seq!['/'];
            let d1 = decimal(file_frame(k1) as nat);
            let d2 = decimal(file_frame(k2) as nat);
            let t1 = frame_file_tail(k1);
            let t2 = frame_file_tail(k2);
            assert(p1 =~= "frame_"@ + (d1 + sl + t1));
            assert(p2 =~= "frame_"@ + (d2 + sl + t2));
            lemma_drop_word("frame_"@, d1 + sl + t1, d2 + sl + t2);
            lemma_split_numerals(file_frame(k1) as nat, t1, file_frame(k2) as nat, t2, '/');
            lemma_same_tail_same_file(k1, k2);
        } else if file_group(k1) == 0 {
            match (k1, k2) {
                (SegmentKind::Container { box_type: a }, SegmentKind::Container { box_type: b }) => {
                    lemma_container_names(a@, b@);
                },
                _ => {},
            }
        }
    }
}


/// The label of a frame header segment holds that segment's own encoding,
/// between `FrameHeader(` and `)`: frame headers of different encodings get
/// different labels, whatever the frame.
pub proof fn lemma_frame_header_label(frame_idx: u32, encoding: String)
    ensures
        ({
            let label = spec_segment_path(SegmentKind::FrameHeader { frame_idx, encoding }).1;
            &&& label.len() == encoding@.len() + 13
            &&& label.subrange(12, 12 + encoding@.len() as int) == encoding@
            &&& label.take(12) == "FrameHeader("@
            &&& label.last() == ')'
        }),
{
    reveal_strlit("FrameHeader(");
    reveal_strlit(")");
    let label = spec_segment_path(SegmentKind::FrameHeader { frame_idx, encoding }).1;
    assert(label.subrange(12, 12 + encoding@.len() as int) =~= encoding@);
    assert(label.take(12) =~= "FrameHeader("@);
}

/// Frame headers with different encodings get different labels.
pub proof fn lemma_frame_header_labels_differ(f1: u32, e1: String, f2: u32, e2: String)
    requires
        e1@ != e2@,
    ensures
        spec_segment_path(SegmentKind::FrameHeader { frame_idx: f1, encoding: e1 }).1
            != spec_segment_path(SegmentKind::FrameHeader { frame_idx: f2, encoding: e2 }).1,
{
    lemma_frame_header_label(f1, e1);
    lemma_frame_header_label(f2, e2);
}


proof fn lemma_index_label(w: Seq<char>, a: u32, b: u32)
    requires
        w + decimal(a as nat) + ")"@ == w + decimal(b as nat) + ")"@,
    ensures
        a == b,
{
    reveal_strlit(")");
    let cp = seq![')'];
    let e = Seq::<char>::empty();
    assert(w + decimal(a as nat) + ")"@ =~= w + (decimal(a as nat) + cp + e));
    assert(w + decimal(b as nat) + ")"@ =~= w + (decimal(b as nat) + cp + e));
    lemma_drop_word(w, decimal(a as nat) + cp + e, decimal(b as nat) + cp + e);
    lemma_split_numerals(a as nat, e, b as nat, e, ')');
}

/// The labels of metadata segments name their LF groups: those of
/// different LF groups differ.
pub proof fn lemma_hf_metadata_labels(f1: u32, a: u32, f2: u32, b: u32)
    requires
        spec_segment_path(SegmentKind::HfMetadata { frame_idx: f1, lf_group_idx: a }).1
            == spec_segment_path(SegmentKind::HfMetadata { frame_idx: f2, lf_group_idx: b }).1,
    ensures
        a == b,
{
    lemma_index_label("HfMetadata(lf_group="@, a, b);
}

/// The labels of LF coefficient segments name their LF groups.
pub proof fn lemma_lf_coeff_labels(f1: u32, a: u32, f2: u32, b: u32)
    requires
        spec_segment_path(SegmentKind::LfCoeff { frame_idx: f1, lf_group_idx: a }).1
            == spec_segment_path(SegmentKind::LfCoeff { frame_idx: f2, lf_group_idx: b }).1,
    ensures
        a == b,
{
    lemma_index_label("LfCoeff(lf_group="@, a, b);
}

/// The labels of modular group segments name their groups.
pub proof fn lemma_modular_group_labels(f1: u32, a: u32, f2: u32, b: u32)
    requires
        spec_segment_path(SegmentKind::ModularGroup { frame_idx: f1, group_idx: a }).1
            == spec_segment_path(SegmentKind::ModularGroup { frame_idx: f2, group_idx: b }).1,
    ensures
        a == b,
{
    lemma_index_label("ModularGroup("@, a, b);
}

/// The labels of HF coefficient segments name their pass and group.
pub proof fn lemma_hf_coeff_labels(
    f1: u32,
    a: u32,
    x: u32,
    s1: Option<String>,
    f2: u32,
    b: u32,
    y: u32,
    s2: Option<String>,
)
    requires
        spec_segment_path(SegmentKind::HfCoeff { frame_idx: f1, pass_idx: a, group_idx: x, ans_symbols_file: s1 }).1
            == spec_segment_path(
            SegmentKind::HfCoeff { frame_idx: f2, pass_idx: b, group_idx: y, ans_symbols_file: s2 },
        ).1,
    ensures
        a == b,
        x == y,
{
    reveal_strlit(")");
    reveal_strlit(", group=");
    reveal_strlit(" group=");
    let w = "HfCoeff(pass="@;
    let mid = " group="@;
    let cm = seq![','];
    let cp = seq![')'];
    let r1 = mid + decimal(x as nat) + ")"@;
    let r2 = mid + decimal(y as nat) + ")"@;
    assert(w + decimal(a as nat) + ", group="@ + decimal(x as nat) + ")"@ =~= w + (decimal(a as nat) + cm + r1));
    assert(w + decimal(b as nat) + ", group="@ + decimal(y as nat) + ")"@ =~= w + (decimal(b as nat) + cm + r2));
    lemma_drop_word(w, decimal(a as nat) + cm + r1, decimal(b as nat) + cm + r2);
    lemma_split_numerals(a as nat, r1, b as nat, r2, ',');
    lemma_index_label(mid, x, y);
}

} // verus!
