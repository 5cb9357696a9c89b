//! The annotation data model: where a field was read, how it was encoded,
//! what value it had, and how annotations group into segments of the
//! codestream.

use vstd::prelude::*;

verus! {

/// Location in decoder source code where a field was parsed.
#[derive(Debug)]
pub struct DecoderLocation {
    /// Source file path (relative to crate root)
    pub file: String,
    /// Line number
    pub line: u32,
    /// Column number
    pub column: u32,
}

/// Type of encoding used to read a value from the bitstream.
#[derive(Debug)]
pub enum EncodingType {
    /// Fixed N bits: u(n)
    Bits { n: u8 },
    /// U32 with 4 branches
    U32 { selector: u8, extra_bits: u8 },
    /// Variable-length U64
    U64,
    /// Half-precision float
    F16,
    /// Boolean (1 bit)
    Bool,
    /// Enum with U32 encoding
    Enum { type_label: String },
    /// Nested Bundle structure
    Bundle { type_label: String },
    /// Zero padding to byte boundary
    ZeroPadToByte,
}

/// A parsed value from the bitstream.
///
/// A 32-bit float is held as the text of its `Debug` rendering (for example
/// `1.5` or `NaN`), which is what the renderers of this library print and
/// from which the float is recovered exactly.
#[derive(Debug)]
pub enum AnnotatedValue {
    Bool(bool),
    U32(u32),
    U64(u64),
    I32(i32),
    I64(i64),
    F32(String),
    Enum { name: String, variant: String, value: u32 },
    /// Nested structure - annotations stored separately
    Nested { type_label: String },
    /// Array of values
    Array(Vec<AnnotatedValue>),
    /// Padding (no semantic value)
    Padding,
}

/// Single annotation for a parsed field.
#[derive(Debug)]
pub struct Annotation {
    /// Bit offset from start of codestream
    pub bit_start: u64,
    /// Number of bits consumed
    pub bit_length: u32,
    /// Hierarchical path: "ImageHeader.metadata.color.primaries"
    pub path: String,
    /// Human-readable field name
    pub field_name: String,
    /// Parsed value
    pub value: AnnotatedValue,
    /// Encoding type used
    pub encoding: EncodingType,
    /// ISO 18181-1 spec section reference (optional)
    pub spec_ref: Option<String>,
    /// Where in the decoder this was parsed
    pub decoder_location: Option<DecoderLocation>,
}

/// Segment kind for semantic grouping.
#[derive(Debug)]
pub enum SegmentKind {
    /// Container layer
    Container { box_type: String },
    /// Codestream signature
    Signature,
    /// Image header
    ImageHeader,
    /// Frame header
    FrameHeader { frame_idx: u32, encoding: String },
    /// Table of contents of a frame
    Toc { frame_idx: u32 },
    /// Global LF data
    LfGlobal { frame_idx: u32 },
    /// Global HF data
    HfGlobal { frame_idx: u32 },
    /// Per-group VarDCT metadata
    HfMetadata { frame_idx: u32, lf_group_idx: u32 },
    /// Per-group LF coefficients
    LfCoeff { frame_idx: u32, lf_group_idx: u32 },
    /// HF coefficients of one group in one pass; `ans_symbols_file` is the
    /// path of an external ANS symbol file, if one was written
    HfCoeff { frame_idx: u32, pass_idx: u32, group_idx: u32, ans_symbols_file: Option<String> },
    /// Modular global section
    ModularGlobal { frame_idx: u32 },
    /// Modular group
    ModularGroup { frame_idx: u32, group_idx: u32 },
}

/// A segment of the bitstream with its annotations.
#[derive(Debug)]
pub struct Segment {
    pub kind: SegmentKind,
    pub byte_range: (u64, u64),
    pub bit_range: (u64, u64),
    /// Annotations within this segment
    pub annotations: Vec<Annotation>,
    /// Child segments (for hierarchical nesting)
    pub children: Vec<Segment>,
}

/// The mathematical value of a segment: its kind, ranges and annotations,
/// and the values of its children.
pub struct SegmentView {
    pub kind: SegmentKind,
    pub byte_range: (u64, u64),
    pub bit_range: (u64, u64),
    pub annotations: Seq<Annotation>,
    pub children: Seq<SegmentView>,
}

/// The value of a segment.
pub open spec fn segment_view(s: Segment) -> SegmentView
    decreases s,
{
    SegmentView {
        kind: s.kind,
        byte_range: s.byte_range,
        bit_range: s.bit_range,
        annotations: s.annotations@,
        children: segments_view(s.children@),
    }
}

/// The values of a list of segments.
pub open spec fn segments_view(ss: Seq<Segment>) -> Seq<SegmentView>
    decreases ss,
{
    if ss.len() == 0 {
        Seq::empty()
    } else {
        segments_view(ss.drop_last()).push(segment_view(ss.last()))
    }
}

/// `segments_view` maps each segment to its value.
pub proof fn lemma_segments_view(ss: Seq<Segment>)
    ensures
        segments_view(ss).len() == ss.len(),
        forall|i: int| 0 <= i < ss.len() ==> #[trigger] segments_view(ss)[i] == segment_view(ss[i]),
    decreases ss.len(),
{
    if ss.len() > 0 {
        lemma_segments_view(ss.drop_last());
    }
}

/// Stack frame for tracking current parsing context.
#[derive(Debug)]
pub struct ContextFrame {
    pub name: String,
    pub start_bit: u64,
}

impl View for ContextFrame {
    type V = (Seq<char>, u64);

    open spec fn view(&self) -> (Seq<char>, u64) {
        (self.name@, self.start_bit)
    }
}

/// Manifest file for annotated output.
#[derive(Debug)]
pub struct AnnotationManifest {
    pub version: u32,
    pub tool: String,
    /// Path of the annotated file
    pub source_file: String,
    pub source_size: u64,
    pub source_sha256: Option<String>,
    pub image: ImageInfo,
    pub frames: Vec<FrameInfo>,
    pub segment_files: Vec<SegmentFileRef>,
}

#[derive(Debug)]
pub struct ImageInfo {
    pub width: u32,
    pub height: u32,
    pub bit_depth: u32,
    pub num_channels: u32,
    pub has_alpha: bool,
    pub color_space: Option<String>,
}

#[derive(Debug)]
pub struct FrameInfo {
    pub index: u32,
    pub encoding: String,
    pub width: u32,
    pub height: u32,
    pub num_lf_groups: u32,
    pub num_passes: u32,
}

#[derive(Debug)]
pub struct SegmentFileRef {
    pub kind: String,
    /// Path of the segment file, relative to the output directory
    pub path: String,
    pub bit_range: (u64, u64),
}

/// VarDCT-specific annotation for block info.
#[derive(Debug)]
pub struct VarBlockAnnotation {
    /// Position in 8x8 blocks
    pub block_x: u32,
    pub block_y: u32,
    /// DCT transform type name
    pub dct_select: String,
    /// Size in 8x8 blocks
    pub size_blocks: (u32, u32),
    /// Size in pixels
    pub size_pixels: (u32, u32),
    /// HF quantization multiplier
    pub hf_mul: i32,
    /// Chroma-from-luma correlation values
    pub x_from_y: Option<i32>,
    pub b_from_y: Option<i32>,
    /// EPF sigma, as the bit pattern of the 32-bit float
    pub epf_sigma: Option<u32>,
}

/// VarDCT HfMetadata annotation.
#[derive(Debug)]
pub struct HfMetadataAnnotation {
    pub frame_idx: u32,
    pub lf_group_idx: u32,
    pub width_blocks: u32,
    pub height_blocks: u32,
    pub num_varblocks: u32,
    pub varblocks: Vec<VarBlockAnnotation>,
}

/// ANS symbol record for external file.
#[derive(Debug)]
pub struct AnsSymbolRecord {
    /// Context used
    pub context: u32,
    /// Decoded symbol value
    pub symbol: u32,
    /// Cluster (after context map)
    pub cluster: u32,
    /// Bit offset in codestream
    pub bit_offset: u64,
}

/// Summary statistics of the values captured at a decoding checkpoint.  The
/// floating-point statistics are held as the bit patterns of the `f64`s.
#[derive(Debug)]
pub struct CheckpointStats {
    pub min: u64,
    pub max: u64,
    pub mean: u64,
    pub stddev: u64,
    pub nonzero_count: u64,
    pub total_count: u64,
}

/// Values captured at one stage of the decoding pipeline, for one group and
/// channel of a frame.
#[derive(Debug)]
pub struct Checkpoint {
    /// Pipeline stage (as a stage number)
    pub stage: u32,
    pub frame_idx: u32,
    pub group_idx: u32,
    pub channel: u32,
    pub stats: CheckpointStats,
}

/// Difference between two matching checkpoints.  The floating-point
/// quantities are held as the bit patterns of the `f64`s.
#[derive(Debug)]
pub struct CheckpointDiff {
    pub stage: u32,
    pub frame_idx: u32,
    pub group_idx: u32,
    pub diff_stats: CheckpointStats,
    pub max_abs_diff: u64,
    pub mean_abs_diff: u64,
    pub rms_diff: u64,
    pub identical: bool,
    pub tolerance: u64,
}

} // verus!
